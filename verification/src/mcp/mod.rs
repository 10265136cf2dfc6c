//! Tools of outside servers that speak the Model Context Protocol.
pub mod stdio;

use vstd::prelude::*;
use vstd::utf8::*;

use crate::json::{
    entry_views, json_views, law_objects_give_the_first_entry_of_a_key, lemma_entry_views,
    lemma_json_views, no_entries, Entries, Json,
    JsonView,
};
use crate::order::{
    is_text_before, lemma_compared_views, lemma_ranked_in_order, lemma_ranked_permutes,
    lemma_ranked_views, lemma_text_before_total, lemma_text_before_transitive, ranked, stable_sort,
    text_before, views_of, Ranked, Sortable, TotallyRanked,
};
use crate::path::{is_within, join_path, joined, lies_within};
use crate::provider::{EnvValue, ToolSpec, ToolSpecView};
use crate::text::{
    ascii_lower, chars_of, find_from, first_at, is_ascii_alphanumeric, is_ascii_word, is_blank,
    is_blank_text, opt_str, opt_text, same_text, slice_text, texts, to_ascii_lowercase_char,
};

verus! {

/// How a server is started.
#[derive(Clone, Debug, PartialEq, Eq)]
pub struct ServerConfig {
    pub name: String,
    pub command: String,
    pub args: Vec<String>,
    pub env: Vec<(String, String)>,
    pub cwd: String,
}

/// The state of a server.
#[derive(Clone, Debug, PartialEq, Eq)]
pub struct McpServerStatus {
    pub name: String,
    pub connected: bool,
    /// The names under which the model may call the server's tools.
    pub tools: Vec<String>,
    pub error: Option<String>,
}

/// The mathematical value of a [`McpServerStatus`].
pub struct ServerStatusView {
    pub name: Seq<char>,
    pub connected: bool,
    pub tools: Seq<Seq<char>>,
    pub error: Option<Seq<char>>,
}

impl View for McpServerStatus {
    type V = ServerStatusView;

    open spec fn view(&self) -> ServerStatusView {
        ServerStatusView {
            name: self.name@,
            connected: self.connected,
            tools: texts(self.tools@),
            error: opt_text(self.error),
        }
    }
}

/// The views of some server states.
pub open spec fn server_views(servers: Seq<McpServerStatus>) -> Seq<ServerStatusView> {
    Seq::new(servers.len(), |i: int| servers[i]@)
}

/// The state of all servers.
#[derive(Clone, Debug, PartialEq, Eq)]
pub struct McpStatus {
    /// What is wrong with the file of the servers.
    pub file_error: Option<String>,
    pub servers: Vec<McpServerStatus>,
}

/// Servers by their names.
impl Ranked for ServerStatusView {
    open spec fn before(&self, other: &ServerStatusView) -> bool {
        text_before(self.name, other.name)
    }
}

impl TotallyRanked for ServerStatusView {
    proof fn ranking_laws(a: &ServerStatusView, b: &ServerStatusView, c: &ServerStatusView) {
        lemma_text_before_total(a.name, b.name);
        lemma_text_before_total(b.name, c.name);
        lemma_text_before_total(a.name, c.name);
        if text_before(c.name, a.name) && text_before(a.name, b.name) {
            lemma_text_before_transitive(c.name, a.name, b.name);
        }
    }
}

impl Ranked for McpServerStatus {
    open spec fn before(&self, other: &McpServerStatus) -> bool {
        self@.before(&other@)
    }
}

impl Sortable for McpServerStatus {
    fn is_before(&self, other: &McpServerStatus) -> (before: bool) {
        proof {
            lemma_compared_views(*self, *other);
        }
        is_text_before(self.name.as_str(), other.name.as_str())
    }
}

/// A tool as its server describes it.
#[derive(Clone, Debug, PartialEq, Eq)]
pub struct RemoteTool {
    pub name: String,
    pub description: String,
    pub input_schema: Json,
}

/// The mathematical value of a [`RemoteTool`].
pub struct RemoteToolView {
    pub name: Seq<char>,
    pub description: Seq<char>,
    pub input_schema: JsonView,
}

impl View for RemoteTool {
    type V = RemoteToolView;

    open spec fn view(&self) -> RemoteToolView {
        RemoteToolView {
            name: self.name@,
            description: self.description@,
            input_schema: self.input_schema@,
        }
    }
}

/// The views of some tools of a server.
pub open spec fn remote_views(tools: Seq<RemoteTool>) -> Seq<RemoteToolView> {
    Seq::new(tools.len(), |i: int| tools[i]@)
}

/// A character of a name that the model may call a tool by.
pub open spec fn safe_char(c: char) -> char {
    if is_ascii_word(c) || c == '_' {
        ascii_lower(c)
    } else {
        '_'
    }
}

/// A name in the characters that the model may call a tool by.
pub open spec fn safe_name(s: Seq<char>) -> Seq<char> {
    Seq::new(s.len(), |i: int| safe_char(s[i]))
}

/// A name in the characters that the model may call a tool by.
pub fn sanitize_name(value: &str) -> (out: String)
    ensures
        out@ == safe_name(value@),
{
    let mut out = String::new();
    for ch in iter: value.chars()
        invariant
            iter.seq() == value@,
            out@ == safe_name(value@).take(iter.index() as int),
    {
        if is_ascii_alphanumeric(ch) || ch == '_' {
            out.push(to_ascii_lowercase_char(ch));
        } else {
            out.push('_');
        }
        assert(out@ =~= safe_name(value@).take(iter.index() + 1));
    }
    assert(safe_name(value@).take(value@.len() as int) =~= safe_name(value@));
    out
}

/// The name under which the model may call a tool of a server.
pub open spec fn bridged_name(server: Seq<char>, tool: Seq<char>) -> Seq<char> {
    "mcp__"@ + safe_name(server) + "__"@ + safe_name(tool)
}

/// The name under which the model may call a tool of a server.
pub fn bridge_name(server: &str, tool: &str) -> (name: String)
    ensures
        name@ == bridged_name(server@, tool@),
{
    let mut name = "mcp__".to_owned();
    name.append(sanitize_name(server).as_str());
    name.append("__");
    name.append(sanitize_name(tool).as_str());
    name
}

/// The name of an outside tool holds small letters, digits and underscores alone.
pub proof fn law_bridged_names_are_plain(server: Seq<char>, tool: Seq<char>, i: int)
    requires
        0 <= i < bridged_name(server, tool).len(),
    ensures
        ({
            let c = bridged_name(server, tool)[i];
            'a' <= c <= 'z' || '0' <= c <= '9' || c == '_'
        }),
{
    reveal_strlit("mcp__");
    reveal_strlit("__");
    let name = bridged_name(server, tool);
    let a = safe_name(server);
    let b = safe_name(tool);
    if i < 5 {
        assert(name[i] == "mcp__"@[i]);
    } else if i < 5 + a.len() {
        assert(name[i] == a[i - 5]);
    } else if i < 7 + a.len() {
        assert(name[i] == "__"@[i - 5 - a.len()]);
    } else {
        assert(name[i] == b[i - 7 - a.len()]);
    }
}

/// What a server's list of tools says, or what is wrong with it.
pub open spec fn remote_tool(tool: JsonView) -> Result<RemoteToolView, Seq<char>> {
    let schema = match tool.get("inputSchema"@) {
        Some(schema) => schema,
        None => JsonView::Object(no_entries().push(("type"@, JsonView::Text("object"@)))),
    };
    match tool.field("name"@).text() {
        Some(name) => if is_blank_text(name) {
            Err("MCP tool 缺少 name"@)
        } else if !(schema is Object) {
            Err("MCP tool "@ + name + " 的 inputSchema 必须是对象"@)
        } else {
            Ok(
                RemoteToolView {
                    name,
                    description: match tool.field("description"@).text() {
                        Some(description) => description,
                        None => "外部 MCP 工具"@,
                    },
                    input_schema: schema,
                },
            )
        },
        None => Err("MCP tool 缺少 name"@),
    }
}

/// The first `n` tools of a list, or what is wrong with the first that is not in order.
pub open spec fn remote_tools(list: Seq<JsonView>, n: int) -> Result<Seq<RemoteToolView>, Seq<char>>
    decreases n,
{
    if n <= 0 {
        Ok(Seq::empty())
    } else {
        match remote_tools(list, n - 1) {
            Err(error) => Err(error),
            Ok(before) => match remote_tool(list[n - 1]) {
                Ok(tool) => Ok(before.push(tool)),
                Err(error) => Err(error),
            },
        }
    }
}

/// The tools that a server's answer lists.
pub open spec fn listed_tools(result: JsonView) -> Result<Seq<RemoteToolView>, Seq<char>> {
    match result.field("tools"@) {
        JsonView::List(list) => remote_tools(list, list.len() as int),
        _ => Err("tools/list 响应缺少 tools 数组"@),
    }
}

fn read_remote_tool(tool: &Json) -> (out: Result<RemoteTool, String>)
    ensures
        match out {
            Ok(read) => remote_tool(tool@) == Ok::<RemoteToolView, Seq<char>>(read@),
            Err(error) => remote_tool(tool@) == Err::<RemoteToolView, Seq<char>>(error@),
        },
{
    let name = match tool.get_text("name") {
        Some(name) => name,
        None => return Err("MCP tool 缺少 name".to_owned()),
    };
    if is_blank(name) {
        return Err("MCP tool 缺少 name".to_owned());
    }
    let input_schema = match tool.get("inputSchema") {
        Some(schema) => schema.copy(),
        None => Entries::new().with_text("type", "object").object(),
    };
    if !matches!(input_schema, Json::Object(_)) {
        let mut error = "MCP tool ".to_owned();
        error.append(name);
        error.append(" 的 inputSchema 必须是对象");
        return Err(error);
    }
    let description = match tool.get_text("description") {
        Some(description) => description.to_owned(),
        None => "外部 MCP 工具".to_owned(),
    };
    Ok(RemoteTool { name: name.to_owned(), description, input_schema })
}

/// The tools that a server's answer lists.
pub fn parse_remote_tools(result: &Json) -> (out: Result<Vec<RemoteTool>, String>)
    ensures
        match out {
            Ok(tools) => listed_tools(result@) == Ok::<Seq<RemoteToolView>, Seq<char>>(
                remote_views(tools@),
            ),
            Err(error) => listed_tools(result@) == Err::<Seq<RemoteToolView>, Seq<char>>(error@),
        },
{
    let list = match result.get("tools") {
        Some(Json::List(list)) => list,
        _ => return Err("tools/list 响应缺少 tools 数组".to_owned()),
    };
    let ghost views = json_views(list@);
    let mut tools: Vec<RemoteTool> = Vec::new();
    let mut at: usize = 0;
    assert(remote_views(tools@) =~= Seq::empty());
    proof {
        lemma_json_views(list@);
    }
    while at < list.len()
        invariant
            at <= list.len(),
            views == json_views(list@),
            views.len() == list@.len(),
            remote_tools(views, at as int) == Ok::<Seq<RemoteToolView>, Seq<char>>(
                remote_views(tools@),
            ),
            listed_tools(result@) == remote_tools(views, views.len() as int),
        decreases list.len() - at,
    {
        proof {
            lemma_json_views(list@);
            assert(views[at as int] == list@[at as int]@);
        }
        let ghost before = tools@;
        match read_remote_tool(&list[at]) {
            Ok(tool) => {
                tools.push(tool);
                assert(remote_views(tools@) =~= remote_views(before).push(tool@));
            },
            Err(error) => {
                proof {
                    lemma_error_stays(views, at as int + 1, views.len() as int, error@);
                }
                return Err(error);
            },
        }
        at += 1;
    }
    Ok(tools)
}

proof fn lemma_error_stays(list: Seq<JsonView>, n: int, m: int, error: Seq<char>)
    requires
        0 <= n <= m,
        remote_tools(list, n) == Err::<Seq<RemoteToolView>, Seq<char>>(error),
    ensures
        remote_tools(list, m) == Err::<Seq<RemoteToolView>, Seq<char>>(error),
    decreases m - n,
{
    if n < m {
        lemma_error_stays(list, n, m - 1, error);
    }
}

/// A tool of an outside server, as it stands in the registry.
#[derive(Clone, Debug, PartialEq, Eq)]
pub struct McpTool {
    pub bridge_name: String,
    pub remote_name: String,
    pub description: String,
    pub input_schema: Json,
    pub server_name: String,
}

/// The mathematical value of a [`McpTool`].
pub struct McpToolView {
    pub bridge_name: Seq<char>,
    pub remote_name: Seq<char>,
    pub description: Seq<char>,
    pub input_schema: JsonView,
    pub server_name: Seq<char>,
}

impl View for McpTool {
    type V = McpToolView;

    open spec fn view(&self) -> McpToolView {
        McpToolView {
            bridge_name: self.bridge_name@,
            remote_name: self.remote_name@,
            description: self.description@,
            input_schema: self.input_schema@,
            server_name: self.server_name@,
        }
    }
}

impl McpTool {
    /// What the model is told of the tool.
    pub fn spec(&self) -> (out: ToolSpec)
        ensures
            out@ == (ToolSpecView {
                name: self@.bridge_name,
                description: self@.description,
                parameters: self@.input_schema,
            }),
    {
        ToolSpec {
            name: self.bridge_name.clone(),
            description: self.description.clone(),
            parameters: self.input_schema.copy(),
        }
    }

    /// What a user is asked to approve before the tool is called.
    pub fn approval_subject(&self) -> (text: String)
        ensures
            text@ == self@.server_name + " / "@ + self@.remote_name,
    {
        let mut text = self.server_name.clone();
        text.append(" / ");
        text.append(self.remote_name.as_str());
        text
    }
}

/// The views of some tools of the registry.
pub open spec fn tool_views(tools: Seq<McpTool>) -> Seq<McpToolView> {
    Seq::new(tools.len(), |i: int| tools[i]@)
}

/// The names under which the model may call some tools.
pub open spec fn tool_names(tools: Seq<McpToolView>) -> Seq<Seq<char>> {
    Seq::new(tools.len(), |i: int| tools[i].bridge_name)
}

/// A tool of a server, as it stands in the registry.
pub open spec fn bridged(server: Seq<char>, tool: RemoteToolView) -> McpToolView {
    McpToolView {
        bridge_name: bridged_name(server, tool.name),
        remote_name: tool.name,
        description: tool.description,
        input_schema: tool.input_schema,
        server_name: server,
    }
}

/// Some tools and the first `n` of a server, or the first name of those that is
/// taken already.
pub open spec fn with_server_tools(
    tools: Seq<McpToolView>,
    server: Seq<char>,
    remote: Seq<RemoteToolView>,
    n: int,
) -> Result<Seq<McpToolView>, Seq<char>>
    decreases n,
{
    if n <= 0 {
        Ok(tools)
    } else {
        match with_server_tools(tools, server, remote, n - 1) {
            Err(name) => Err(name),
            Ok(before) => {
                let tool = bridged(server, remote[n - 1]);
                if tool_names(before).contains(tool.bridge_name) {
                    Err(tool.bridge_name)
                } else {
                    Ok(before.push(tool))
                }
            },
        }
    }
}

/// What came of the attempt to connect to a server.
#[derive(Debug)]
pub struct ServerOutcome {
    pub name: String,
    pub result: Result<Vec<RemoteTool>, String>,
}

/// The tools after a server has been taken in. A server that fails, or one of
/// whose names is taken, adds none.
pub open spec fn tools_after(tools: Seq<McpToolView>, outcome: ServerOutcome) -> Seq<McpToolView> {
    match outcome.result {
        Ok(remote) => match with_server_tools(
            tools,
            outcome.name@,
            remote_views(remote@),
            remote@.len() as int,
        ) {
            Ok(now) => now,
            Err(_) => tools,
        },
        Err(_) => tools,
    }
}

/// The state of a server once it has been taken in.
pub open spec fn status_after(tools: Seq<McpToolView>, outcome: ServerOutcome) -> ServerStatusView {
    match outcome.result {
        Ok(remote) => match with_server_tools(
            tools,
            outcome.name@,
            remote_views(remote@),
            remote@.len() as int,
        ) {
            Ok(now) => ServerStatusView {
                name: outcome.name@,
                connected: true,
                tools: tool_names(now).skip(tools.len() as int),
                error: None,
            },
            Err(name) => ServerStatusView {
                name: outcome.name@,
                connected: false,
                tools: Seq::empty(),
                error: Some("MCP 工具名冲突："@ + name),
            },
        },
        Err(error) => ServerStatusView {
            name: outcome.name@,
            connected: false,
            tools: Seq::empty(),
            error: Some(error@),
        },
    }
}

/// The tools after the first `n` servers have been taken in.
pub open spec fn tools_of(outcomes: Seq<ServerOutcome>, n: int) -> Seq<McpToolView>
    decreases n,
{
    if n <= 0 {
        Seq::empty()
    } else {
        tools_after(tools_of(outcomes, n - 1), outcomes[n - 1])
    }
}

/// The states of the first `n` servers, after those of which the settings are wrong.
pub open spec fn statuses_of(
    invalid: Seq<ServerStatusView>,
    outcomes: Seq<ServerOutcome>,
    n: int,
) -> Seq<ServerStatusView>
    decreases n,
{
    if n <= 0 {
        invalid
    } else {
        statuses_of(invalid, outcomes, n - 1).push(
            status_after(tools_of(outcomes, n - 1), outcomes[n - 1]),
        )
    }
}

fn has_name(tools: &Vec<McpTool>, name: &str) -> (found: bool)
    ensures
        found == tool_names(tool_views(tools@)).contains(name@),
{
    let ghost names = tool_names(tool_views(tools@));
    let mut at: usize = 0;
    while at < tools.len()
        invariant
            at <= tools.len(),
            names == tool_names(tool_views(tools@)),
            forall|i: int| 0 <= i < at ==> #[trigger] names[i] != name@,
        decreases tools.len() - at,
    {
        if same_text(tools[at].bridge_name.as_str(), name) {
            assert(names[at as int] == name@);
            return true;
        }
        at += 1;
    }
    assert(!names.contains(name@));
    false
}

/// Puts the tools of a server into the registry; where one of their names is
/// taken, none of them, and says which.
fn take_in(tools: &mut Vec<McpTool>, server: &str, remote: &Vec<RemoteTool>) -> (out: Result<
    Vec<String>,
    String,
>)
    ensures
        match with_server_tools(
            tool_views(old(tools)@),
            server@,
            remote_views(remote@),
            remote@.len() as int,
        ) {
            Ok(now) => tool_views(final(tools)@) == now && (out matches Ok(names) && texts(names@)
                == tool_names(now).skip(old(tools)@.len() as int)),
            Err(name) => tool_views(final(tools)@) == tool_views(old(tools)@) && (out matches Err(
                taken,
            ) && taken@ == name),
        },
{
    let count = tools.len();
    let ghost start = tool_views(tools@);
    let ghost list = remote_views(remote@);
    let mut names: Vec<String> = Vec::new();
    let mut at: usize = 0;
    assert(texts(names@) =~= tool_names(start).skip(count as int));
    while at < remote.len()
        invariant
            at <= remote.len(),
            count <= tools@.len(),
            count == start.len(),
            list == remote_views(remote@),
            start == tool_views(old(tools)@),
            tool_views(tools@).take(count as int) == start,
            with_server_tools(start, server@, list, at as int) == Ok::<Seq<McpToolView>, Seq<char>>(
                tool_views(tools@),
            ),
            texts(names@) == tool_names(tool_views(tools@)).skip(count as int),
        decreases remote.len() - at,
    {
        let tool = &remote[at];
        let ghost before = tools@;
        let ghost names_before = names@;
        assert(list[at as int] == tool@);
        let name = bridge_name(server, tool.name.as_str());
        if has_name(tools, name.as_str()) {
            proof {
                lemma_taken_stays(start, server@, list, at as int + 1, list.len() as int, name@);
            }
            tools.truncate(count);
            assert(tool_views(tools@) =~= start);
            return Err(name);
        }
        names.push(name.clone());
        tools.push(
            McpTool {
                bridge_name: name,
                remote_name: tool.name.clone(),
                description: tool.description.clone(),
                input_schema: tool.input_schema.copy(),
                server_name: server.to_owned(),
            },
        );
        proof {
            assert(tools@.last()@ == bridged(server@, tool@));
            assert(tool_views(tools@) =~= tool_views(before).push(bridged(server@, tool@)));
            assert(tool_views(tools@).take(count as int) =~= tool_views(before).take(count as int));
            assert(texts(names@) =~= texts(names_before).push(name@));
            assert(tool_names(tool_views(tools@)) =~= tool_names(tool_views(before)).push(name@));
            assert(texts(names@) =~= tool_names(tool_views(tools@)).skip(count as int));
        }
        at += 1;
    }
    Ok(names)
}

proof fn lemma_taken_stays(
    tools: Seq<McpToolView>,
    server: Seq<char>,
    remote: Seq<RemoteToolView>,
    n: int,
    m: int,
    name: Seq<char>,
)
    requires
        0 <= n <= m,
        with_server_tools(tools, server, remote, n) == Err::<Seq<McpToolView>, Seq<char>>(name),
    ensures
        with_server_tools(tools, server, remote, m) == Err::<Seq<McpToolView>, Seq<char>>(name),
    decreases m - n,
{
    if n < m {
        lemma_taken_stays(tools, server, remote, n, m - 1, name);
    }
}

/// The servers and their tools.
#[derive(Debug)]
pub struct McpManager {
    workspace: String,
    status: McpStatus,
    tools: Vec<McpTool>,
}

/// The mathematical value of a [`McpManager`].
pub struct McpView {
    /// The workspace whose servers these are.
    pub workspace: Seq<char>,
    pub file_error: Option<Seq<char>>,
    pub servers: Seq<McpServerStatus>,
    pub tools: Seq<McpToolView>,
}

impl View for McpManager {
    type V = McpView;

    closed spec fn view(&self) -> McpView {
        McpView {
            workspace: self.workspace@,
            file_error: opt_text(self.status.file_error),
            servers: self.status.servers@,
            tools: tool_views(self.tools@),
        }
    }
}

impl McpManager {
    /// No servers yet for a workspace.
    pub fn new(workspace: &str) -> (manager: McpManager)
        ensures
            manager@.workspace == workspace@,
            manager@.file_error is None,
            manager@.servers == Seq::<McpServerStatus>::empty(),
            manager@.tools == Seq::<McpToolView>::empty(),
    {
        let manager = McpManager {
            workspace: workspace.to_owned(),
            status: McpStatus { file_error: None, servers: Vec::new() },
            tools: Vec::new(),
        };
        assert(manager@.servers =~= Seq::empty());
        assert(manager@.tools =~= Seq::empty());
        manager
    }

    /// The workspace whose servers these are.
    pub fn workspace(&self) -> (workspace: &str)
        ensures
            workspace@ == self@.workspace,
    {
        self.workspace.as_str()
    }

    /// Takes in what came of the attempts to connect, in place of what was there
    /// before, and says of each server whether it stays connected.
    pub fn reload(
        &mut self,
        file_error: Option<String>,
        invalid: Vec<McpServerStatus>,
        outcomes: &Vec<ServerOutcome>,
    ) -> (kept: Vec<bool>)
        ensures
            final(self)@.workspace == old(self)@.workspace,
            final(self)@.file_error == opt_text(file_error),
            final(self)@.tools == tools_of(outcomes@, outcomes@.len() as int),
            server_views(final(self)@.servers) == ranked(
                statuses_of(server_views(invalid@), outcomes@, outcomes@.len() as int),
            ),
            kept@.len() == outcomes@.len(),
            forall|i: int|
                0 <= i < kept@.len() ==> #[trigger] kept@[i] == status_after(
                    tools_of(outcomes@, i),
                    outcomes@[i],
                ).connected,
    {
        let ghost wrong = server_views(invalid@);
        let mut servers = invalid;
        let mut tools: Vec<McpTool> = Vec::new();
        let mut kept: Vec<bool> = Vec::new();
        let mut at: usize = 0;
        assert(tool_views(tools@) =~= tools_of(outcomes@, 0));
        while at < outcomes.len()
            invariant
                at <= outcomes.len(),
                at == kept.len(),
                tool_views(tools@) == tools_of(outcomes@, at as int),
                server_views(servers@) == statuses_of(wrong, outcomes@, at as int),
                forall|i: int|
                    0 <= i < kept@.len() ==> #[trigger] kept@[i] == status_after(
                        tools_of(outcomes@, i),
                        outcomes@[i],
                    ).connected,
            decreases outcomes.len() - at,
        {
            let outcome = &outcomes[at];
            let ghost before = servers@;
            let ghost tools_before = tool_views(tools@);
            let status = match &outcome.result {
                Ok(remote) => match take_in(&mut tools, outcome.name.as_str(), remote) {
                    Ok(names) => McpServerStatus {
                        name: outcome.name.clone(),
                        connected: true,
                        tools: names,
                        error: None,
                    },
                    Err(name) => {
                        let mut error = "MCP 工具名冲突：".to_owned();
                        error.append(name.as_str());
                        failed(outcome.name.as_str(), error)
                    },
                },
                Err(error) => failed(outcome.name.as_str(), error.clone()),
            };
            assert(status@ == status_after(tools_before, *outcome));
            assert(tool_views(tools@) == tools_after(tools_before, *outcome));
            kept.push(status.connected);
            servers.push(status);
            assert(server_views(servers@) =~= server_views(before).push(status@));
            at += 1;
        }
        proof {
            lemma_ranked_views(servers@);
            assert(views_of(servers@) =~= server_views(servers@));
            assert(server_views(ranked(servers@)) =~= views_of(ranked(servers@)));
        }
        let sorted = stable_sort(servers);
        self.status = McpStatus { file_error, servers: sorted };
        self.tools = tools;
        kept
    }

    /// The state of the servers.
    pub fn status(&self) -> (status: &McpStatus)
        ensures
            opt_text(status.file_error) == self@.file_error,
            status.servers@ == self@.servers,
    {
        &self.status
    }

    /// Takes away all tools; no server is connected any more.
    pub fn shutdown(&mut self)
        ensures
            final(self)@.workspace == old(self)@.workspace,
            final(self)@.file_error == old(self)@.file_error,
            final(self)@.tools == Seq::<McpToolView>::empty(),
            server_views(final(self)@.servers) == disconnected(server_views(old(self)@.servers)),
    {
        self.tools = Vec::new();
        assert(self@.tools =~= Seq::empty());
        let ghost all = self.status.servers@;
        let mut servers: Vec<McpServerStatus> = Vec::new();
        let mut at: usize = 0;
        while at < self.status.servers.len()
            invariant
                at == servers.len(),
                at <= self.status.servers.len(),
                all == self.status.servers@,
                opt_text(self.status.file_error) == old(self)@.file_error,
                old(self)@.servers == all,
                self@.workspace == old(self)@.workspace,
                self@.tools == Seq::<McpToolView>::empty(),
                forall|i: int|
                    0 <= i < at ==> (#[trigger] servers@[i])@ == disconnected(server_views(all))[i],
            decreases self.status.servers.len() - at,
        {
            let server = &self.status.servers[at];
            let names = copy_texts(&server.tools);
            let next = McpServerStatus {
                name: server.name.clone(),
                connected: false,
                tools: names,
                error: server.error.clone(),
            };
            assert(next@ == disconnected(server_views(all))[at as int]);
            servers.push(next);
            at += 1;
        }
        assert(server_views(servers@) =~= disconnected(server_views(all)));
        self.status.servers = servers;
    }

    /// What the model is told of the tools.
    pub fn specs(&self) -> (out: Vec<ToolSpec>)
        ensures
            out@.len() == self@.tools.len(),
            forall|i: int|
                0 <= i < out@.len() ==> (#[trigger] out@[i])@ == (ToolSpecView {
                    name: self@.tools[i].bridge_name,
                    description: self@.tools[i].description,
                    parameters: self@.tools[i].input_schema,
                }),
    {
        let mut out: Vec<ToolSpec> = Vec::new();
        let mut at: usize = 0;
        while at < self.tools.len()
            invariant
                at == out.len(),
                at <= self.tools.len(),
                forall|i: int|
                    0 <= i < out@.len() ==> (#[trigger] out@[i])@ == (ToolSpecView {
                        name: self@.tools[i].bridge_name,
                        description: self@.tools[i].description,
                        parameters: self@.tools[i].input_schema,
                    }),
            decreases self.tools.len() - at,
        {
            assert(self@.tools[at as int] == self.tools@[at as int]@);
            out.push(self.tools[at].spec());
            at += 1;
        }
        out
    }

    /// The tool with a name.
    pub fn get(&self, name: &str) -> (found: Option<&McpTool>)
        ensures
            match found {
                Some(tool) => tool@.bridge_name == name@ && self@.tools.contains(tool@),
                None => !tool_names(self@.tools).contains(name@),
            },
    {
        let ghost names = tool_names(self@.tools);
        let mut at: usize = 0;
        while at < self.tools.len()
            invariant
                at <= self.tools.len(),
                names == tool_names(self@.tools),
                forall|i: int| 0 <= i < at ==> #[trigger] names[i] != name@,
            decreases self.tools.len() - at,
        {
            if same_text(self.tools[at].bridge_name.as_str(), name) {
                assert(self@.tools[at as int] == self.tools@[at as int]@);
                return Some(&self.tools[at]);
            }
            assert(names[at as int] == self.tools@[at as int]@.bridge_name);
            at += 1;
        }
        None
    }
}

/// Some server states with no server connected.
pub open spec fn disconnected(servers: Seq<ServerStatusView>) -> Seq<ServerStatusView> {
    Seq::new(servers.len(), |i: int| ServerStatusView { connected: false, ..servers[i] })
}

fn copy_texts(list: &Vec<String>) -> (out: Vec<String>)
    ensures
        texts(out@) == texts(list@),
{
    let mut out: Vec<String> = Vec::new();
    let mut at: usize = 0;
    while at < list.len()
        invariant
            at == out.len(),
            at <= list.len(),
            forall|i: int| 0 <= i < at ==> (#[trigger] out@[i])@ == list@[i]@,
        decreases list.len() - at,
    {
        out.push(list[at].clone());
        at += 1;
    }
    assert(texts(out@) =~= texts(list@));
    out
}

fn failed(name: &str, error: String) -> (status: McpServerStatus)
    ensures
        status@ == (ServerStatusView {
            name: name@,
            connected: false,
            tools: Seq::<Seq<char>>::empty(),
            error: Some(error@),
        }),
{
    let status = McpServerStatus {
        name: name.to_owned(),
        connected: false,
        tools: Vec::new(),
        error: Some(error),
    };
    assert(texts(status.tools@) =~= Seq::empty());
    status
}

spec fn distinct_names(tools: Seq<McpToolView>) -> bool {
    tool_names(tools).no_duplicates()
}

proof fn lemma_server_tools_distinct(
    tools: Seq<McpToolView>,
    server: Seq<char>,
    remote: Seq<RemoteToolView>,
    n: int,
)
    requires
        distinct_names(tools),
    ensures
        with_server_tools(tools, server, remote, n) matches Ok(now) ==> distinct_names(now),
    decreases n,
{
    if n > 0 {
        lemma_server_tools_distinct(tools, server, remote, n - 1);
        if let Ok(before) = with_server_tools(tools, server, remote, n - 1) {
            let tool = bridged(server, remote[n - 1]);
            let names = tool_names(before);
            let now = tool_names(before.push(tool));
            assert(now =~= names.push(tool.bridge_name));
            if !names.contains(tool.bridge_name) {
                assert forall|i: int, j: int|
                    0 <= i < now.len() && 0 <= j < now.len() && i != j implies now[i] != now[j] by {
                    if i == names.len() {
                        assert(names.contains(names[j]));
                    } else if j == names.len() {
                        assert(names.contains(names[i]));
                    }
                }
            }
        }
    }
}

/// Whatever servers are taken in, no two tools have one name.
pub proof fn law_outside_tools_have_names_of_their_own(outcomes: Seq<ServerOutcome>, n: int)
    ensures
        tool_names(tools_of(outcomes, n)).no_duplicates(),
    decreases n,
{
    if n > 0 {
        law_outside_tools_have_names_of_their_own(outcomes, n - 1);
        let before = tools_of(outcomes, n - 1);
        if let Ok(remote) = outcomes[n - 1].result {
            lemma_server_tools_distinct(
                before,
                outcomes[n - 1].name@,
                remote_views(remote@),
                remote@.len() as int,
            );
        }
    }
}

/// A server that cannot be used takes nothing away from the others: the tools
/// stay as they were.
pub proof fn law_failed_server_leaves_the_others(tools: Seq<McpToolView>, outcome: ServerOutcome)
    requires
        !status_after(tools, outcome).connected,
    ensures
        tools_after(tools, outcome) == tools,
        status_after(tools, outcome).error is Some,
{
}

/// The value of a variable of the environment, or why there is none.
pub open spec fn env_value(env: Seq<(String, EnvValue)>, key: Seq<char>) -> Result<
    Seq<char>,
    Seq<char>,
>
    decreases env.len(),
{
    if env.len() == 0 {
        Err("environment variable not found"@)
    } else if env[0].0@ == key {
        match env[0].1 {
            EnvValue::Missing => Err("environment variable not found"@),
            EnvValue::Unreadable(reason) => Err(reason@),
            EnvValue::Present(value) => Ok(value@),
        }
    } else {
        env_value(env.skip(1), key)
    }
}

fn find_env(env: &Vec<(String, EnvValue)>, key: &str) -> (value: Result<String, String>)
    ensures
        text_outcome(value) == env_value(env@, key@),
{
    let mut at: usize = 0;
    assert(env@.skip(0) =~= env@);
    while at < env.len()
        invariant
            at <= env.len(),
            env_value(env@, key@) == env_value(env@.skip(at as int), key@),
        decreases env.len() - at,
    {
        assert(env@.skip(at as int)[0] == env@[at as int]);
        if same_text(env[at].0.as_str(), key) {
            return match &env[at].1 {
                EnvValue::Missing => Err("environment variable not found".to_owned()),
                EnvValue::Unreadable(reason) => Err(reason.clone()),
                EnvValue::Present(value) => Ok(value.clone()),
            };
        }
        assert(env@.skip(at as int).skip(1) =~= env@.skip(at + 1));
        at += 1;
    }
    Err("environment variable not found".to_owned())
}

/// What stands for a placeholder: the workspace, or a variable of the environment.
pub open spec fn placeholder_value(
    key: Seq<char>,
    workspace: Seq<char>,
    env: Seq<(String, EnvValue)>,
) -> Result<Seq<char>, Seq<char>> {
    if key.len() == 0 {
        Err("占位符名称不能为空"@)
    } else if key == "WORKSPACE_ROOT"@ {
        Ok(workspace)
    } else {
        match env_value(env, key) {
            Ok(value) => Ok(value),
            Err(reason) => Err("占位符环境变量未设置："@ + key + ": "@ + reason),
        }
    }
}

/// A text with what stands for each placeholder in its place.
pub open spec fn expanded(input: Seq<char>, workspace: Seq<char>, env: Seq<(String, EnvValue)>) -> Result<
    Seq<char>,
    Seq<char>,
>
    decreases input.len(),
{
    match first_at(input, seq!['$', '{'], 0) {
        None => Ok(input),
        Some(start) => {
            proof {
                crate::text::lemma_first_at(input, seq!['$', '{'], 0);
            }
            let after = input.skip(start + 2);
            match first_at(after, seq!['}'], 0) {
                None => Err("占位符缺少右花括号"@),
                Some(end) => {
                    proof {
                        crate::text::lemma_first_at(after, seq!['}'], 0);
                    }
                    match placeholder_value(after.take(end), workspace, env) {
                        Err(error) => Err(error),
                        Ok(value) => match expanded(after.skip(end + 1), workspace, env) {
                            Err(error) => Err(error),
                            Ok(rest) => Ok(input.take(start) + value + rest),
                        },
                    }
                },
            }
        },
    }
}

/// The view of an outcome in words.
pub open spec fn text_outcome(out: Result<String, String>) -> Result<Seq<char>, Seq<char>> {
    match out {
        Ok(text) => Ok(text@),
        Err(error) => Err(error@),
    }
}

/// A text with what stands for each placeholder in its place.
pub fn expand_placeholders(input: &str, workspace: &str, env: &Vec<(String, EnvValue)>) -> (out: Result<
    String,
    String,
>)
    ensures
        text_outcome(out) == expanded(input@, workspace@, env@),
    decreases input@.len(),
{
    let chars = chars_of(input);
    let total = chars.len();
    let open: Vec<char> = vec!['$', '{'];
    let close: Vec<char> = vec!['}'];
    assert(open@ =~= seq!['$', '{']);
    assert(close@ =~= seq!['}']);
    let start = match find_from(&chars, &open, 0) {
        Some(start) => start,
        None => return Ok(input.to_owned()),
    };
    let after_text = slice_text(&chars, start + 2, total);
    assert(after_text@ =~= input@.skip(start + 2));
    let after = chars_of(after_text.as_str());
    let after_total = after.len();
    let end = match find_from(&after, &close, 0) {
        Some(end) => end,
        None => return Err("占位符缺少右花括号".to_owned()),
    };
    let key = slice_text(&after, 0, end);
    assert(key@ =~= after_text@.take(end as int));
    if end == 0 {
        assert(key@.len() == 0);
        return Err("占位符名称不能为空".to_owned());
    }
    let value = if same_text(key.as_str(), "WORKSPACE_ROOT") {
        workspace.to_owned()
    } else {
        match find_env(env, key.as_str()) {
            Ok(value) => value,
            Err(reason) => {
                let mut error = "占位符环境变量未设置：".to_owned();
                error.append(key.as_str());
                error.append(": ");
                error.append(reason.as_str());
                return Err(error);
            },
        }
    };
    let rest = slice_text(&after, end + 1, after_total);
    assert(rest@ =~= after_text@.skip(end + 1));
    match expand_placeholders(rest.as_str(), workspace, env) {
        Err(error) => Err(error),
        Ok(tail) => {
            let mut out = slice_text(&chars, 0, start);
            assert(out@ =~= input@.take(start as int));
            out.append(value.as_str());
            out.append(tail.as_str());
            Ok(out)
        },
    }
}

/// A text without placeholders stands for itself.
pub proof fn law_text_without_placeholders_stays(
    input: Seq<char>,
    workspace: Seq<char>,
    env: Seq<(String, EnvValue)>,
)
    requires
        !crate::text::contains_text(input, seq!['$', '{']),
    ensures
        expanded(input, workspace, env) == Ok::<Seq<char>, Seq<char>>(input),
{
    crate::text::lemma_first_at(input, seq!['$', '{'], 0);
    if let Some(at) = first_at(input, seq!['$', '{'], 0) {
        assert(crate::text::occurs_at(input, seq!['$', '{'], at));
    }
}

/// How a server is to be started, before its directory has been looked up.
#[derive(Clone, Debug, PartialEq, Eq)]
pub struct ServerPlan {
    pub name: String,
    pub command: String,
    pub args: Vec<String>,
    pub env: Vec<(String, String)>,
    /// The directory to look up; the workspace where there is none.
    pub cwd: Option<String>,
}

/// The texts of a list, or what is wrong with it.
pub open spec fn text_items(list: Seq<JsonView>, n: int) -> Result<Seq<Seq<char>>, Seq<char>>
    decreases n,
{
    if n <= 0 {
        Ok(Seq::empty())
    } else {
        match text_items(list, n - 1) {
            Err(error) => Err(error),
            Ok(before) => match list[n - 1].text() {
                Some(text) => Ok(before.push(text)),
                None => Err("args 必须是字符串数组"@),
            },
        }
    }
}

/// Some texts with their placeholders filled, or what is wrong with the first
/// that cannot be.
pub open spec fn expanded_all(
    list: Seq<Seq<char>>,
    workspace: Seq<char>,
    env: Seq<(String, EnvValue)>,
    n: int,
) -> Result<Seq<Seq<char>>, Seq<char>>
    decreases n,
{
    if n <= 0 {
        Ok(Seq::empty())
    } else {
        match expanded_all(list, workspace, env, n - 1) {
            Err(error) => Err(error),
            Ok(before) => match expanded(list[n - 1], workspace, env) {
                Ok(text) => Ok(before.push(text)),
                Err(error) => Err(error),
            },
        }
    }
}

/// The arguments of a server.
pub open spec fn server_args(
    object: JsonView,
    workspace: Seq<char>,
    env: Seq<(String, EnvValue)>,
) -> Result<Seq<Seq<char>>, Seq<char>> {
    match object.get("args"@) {
        None => Ok(Seq::empty()),
        Some(JsonView::List(list)) => match text_items(list, list.len() as int) {
            Ok(items) => expanded_all(items, workspace, env, items.len() as int),
            Err(error) => Err(error),
        },
        Some(_) => Err("args 必须是字符串数组"@),
    }
}

/// The entries of an object of texts.
pub open spec fn text_entries(entries: Seq<(Seq<char>, JsonView)>, n: int) -> Result<
    Seq<(Seq<char>, Seq<char>)>,
    Seq<char>,
>
    decreases n,
{
    if n <= 0 {
        Ok(Seq::empty())
    } else {
        match text_entries(entries, n - 1) {
            Err(error) => Err(error),
            Ok(before) => match entries[n - 1].1.text() {
                Some(text) => Ok(before.push((entries[n - 1].0, text))),
                None => Err("env 值必须是字符串"@),
            },
        }
    }
}

/// Some entries with the placeholders of their values filled; their keys stay.
pub open spec fn expanded_entries(
    list: Seq<(Seq<char>, Seq<char>)>,
    workspace: Seq<char>,
    env: Seq<(String, EnvValue)>,
    n: int,
) -> Result<Seq<(Seq<char>, Seq<char>)>, Seq<char>>
    decreases n,
{
    if n <= 0 {
        Ok(Seq::empty())
    } else {
        match expanded_entries(list, workspace, env, n - 1) {
            Err(error) => Err(error),
            Ok(before) => match expanded(list[n - 1].1, workspace, env) {
                Ok(text) => Ok(before.push((list[n - 1].0, text))),
                Err(error) => Err(error),
            },
        }
    }
}

/// The environment of a server.
pub open spec fn server_env(
    object: JsonView,
    workspace: Seq<char>,
    env: Seq<(String, EnvValue)>,
) -> Result<Seq<(Seq<char>, Seq<char>)>, Seq<char>> {
    match object.get("env"@) {
        None => Ok(Seq::empty()),
        Some(JsonView::Object(entries)) => match text_entries(entries, entries.len() as int) {
            Ok(list) => expanded_entries(list, workspace, env, list.len() as int),
            Err(error) => Err(error),
        },
        Some(_) => Err("env 必须是字符串 map"@),
    }
}

/// The directory of a server, before it has been looked up.
pub open spec fn server_cwd(
    object: JsonView,
    workspace: Seq<char>,
    env: Seq<(String, EnvValue)>,
) -> Result<Option<Seq<char>>, Seq<char>> {
    match object.get("cwd"@) {
        None => Ok(None),
        Some(JsonView::Text(text)) => match expanded(text, workspace, env) {
            Ok(path) => Ok(Some(joined(workspace, path))),
            Err(error) => Err(error),
        },
        Some(_) => Err("cwd 必须是字符串"@),
    }
}

/// The mathematical value of a [`ServerPlan`].
pub struct ServerPlanView {
    pub name: Seq<char>,
    pub command: Seq<char>,
    pub args: Seq<Seq<char>>,
    pub env: Seq<(Seq<char>, Seq<char>)>,
    pub cwd: Option<Seq<char>>,
}

/// The views of some pairs of texts.
pub open spec fn pair_views(list: Seq<(String, String)>) -> Seq<(Seq<char>, Seq<char>)> {
    Seq::new(list.len(), |i: int| (list[i].0@, list[i].1@))
}

impl View for ServerPlan {
    type V = ServerPlanView;

    open spec fn view(&self) -> ServerPlanView {
        ServerPlanView {
            name: self.name@,
            command: self.command@,
            args: texts(self.args@),
            env: pair_views(self.env@),
            cwd: opt_text(self.cwd),
        }
    }
}

/// How a server is to be started by its settings, or what is wrong with them. The
/// command is taken as it stands; placeholders are filled in the arguments, in
/// the values of the environment and in the directory.
pub open spec fn server_plan(
    name: Seq<char>,
    value: JsonView,
    workspace: Seq<char>,
    env: Seq<(String, EnvValue)>,
) -> Result<ServerPlanView, Seq<char>> {
    if !(value is Object) {
        Err("server 条目必须是对象"@)
    } else {
        match value.field("command"@).text() {
            Some(command) => if is_blank_text(command) {
                Err("command 必须是非空字符串"@)
            } else {
                match server_args(value, workspace, env) {
                    Err(error) => Err(error),
                    Ok(args) => match server_env(value, workspace, env) {
                        Err(error) => Err(error),
                        Ok(variables) => match server_cwd(value, workspace, env) {
                            Err(error) => Err(error),
                            Ok(cwd) => Ok(
                                ServerPlanView { name, command, args, env: variables, cwd },
                            ),
                        },
                    },
                }
            },
            None => Err("command 必须是非空字符串"@),
        }
    }
}

fn read_args(object: &Json, workspace: &str, env: &Vec<(String, EnvValue)>) -> (out: Result<
    Vec<String>,
    String,
>)
    ensures
        match out {
            Ok(args) => server_args(object@, workspace@, env@) == Ok::<Seq<Seq<char>>, Seq<char>>(
                texts(args@),
            ),
            Err(error) => server_args(object@, workspace@, env@) == Err::<
                Seq<Seq<char>>,
                Seq<char>,
            >(error@),
        },
{
    let mut out: Vec<String> = Vec::new();
    assert(texts(out@) =~= Seq::empty());
    let list = match object.get("args") {
        None => return Ok(out),
        Some(Json::List(list)) => list,
        Some(_) => return Err("args 必须是字符串数组".to_owned()),
    };
    let ghost views = json_views(list@);
    proof {
        lemma_json_views(list@);
    }
    let mut items: Vec<String> = Vec::new();
    let mut at: usize = 0;
    assert(texts(items@) =~= Seq::empty());
    while at < list.len()
        invariant
            at <= list.len(),
            views == json_views(list@),
            views.len() == list@.len(),
            object@.get("args"@) == Some(JsonView::List(views)),
            text_items(views, at as int) == Ok::<Seq<Seq<char>>, Seq<char>>(texts(items@)),
        decreases list.len() - at,
    {
        proof {
            lemma_json_views(list@);
            assert(views[at as int] == list@[at as int]@);
        }
        let ghost before = items@;
        match list[at].as_text() {
            Some(text) => {
                items.push(text.to_owned());
                assert(texts(items@) =~= texts(before).push(text@));
            },
            None => {
                proof {
                    lemma_items_error(views, at as int + 1, views.len() as int);
                }
                return Err("args 必须是字符串数组".to_owned());
            },
        }
        at += 1;
    }
    let ghost wanted = texts(items@);
    at = 0;
    while at < items.len()
        invariant
            at <= items.len(),
            wanted == texts(items@),
            text_items(views, views.len() as int) == Ok::<Seq<Seq<char>>, Seq<char>>(wanted),
            object@.get("args"@) == Some(JsonView::List(views)),
            expanded_all(wanted, workspace@, env@, at as int) == Ok::<Seq<Seq<char>>, Seq<char>>(
                texts(out@),
            ),
        decreases items.len() - at,
    {
        let ghost before = out@;
        assert(wanted[at as int] == items@[at as int]@);
        match expand_placeholders(items[at].as_str(), workspace, env) {
            Ok(text) => {
                out.push(text);
                assert(texts(out@) =~= texts(before).push(text@));
            },
            Err(error) => {
                proof {
                    lemma_expanded_error(
                        wanted,
                        workspace@,
                        env@,
                        at as int + 1,
                        wanted.len() as int,
                        error@,
                    );
                }
                return Err(error);
            },
        }
        at += 1;
    }
    Ok(out)
}

proof fn lemma_items_error(list: Seq<JsonView>, n: int, m: int)
    requires
        0 <= n <= m,
        text_items(list, n) is Err,
    ensures
        text_items(list, m) == text_items(list, n),
    decreases m - n,
{
    if n < m {
        lemma_items_error(list, n, m - 1);
    }
}

proof fn lemma_expanded_error(
    list: Seq<Seq<char>>,
    workspace: Seq<char>,
    env: Seq<(String, EnvValue)>,
    n: int,
    m: int,
    error: Seq<char>,
)
    requires
        0 <= n <= m,
        expanded_all(list, workspace, env, n) == Err::<Seq<Seq<char>>, Seq<char>>(error),
    ensures
        expanded_all(list, workspace, env, m) == Err::<Seq<Seq<char>>, Seq<char>>(error),
    decreases m - n,
{
    if n < m {
        lemma_expanded_error(list, workspace, env, n, m - 1, error);
    }
}

proof fn lemma_entries_error(entries: Seq<(Seq<char>, JsonView)>, n: int, m: int)
    requires
        0 <= n <= m,
        text_entries(entries, n) is Err,
    ensures
        text_entries(entries, m) == text_entries(entries, n),
    decreases m - n,
{
    if n < m {
        lemma_entries_error(entries, n, m - 1);
    }
}

proof fn lemma_expanded_entries_error(
    list: Seq<(Seq<char>, Seq<char>)>,
    workspace: Seq<char>,
    env: Seq<(String, EnvValue)>,
    n: int,
    m: int,
    error: Seq<char>,
)
    requires
        0 <= n <= m,
        expanded_entries(list, workspace, env, n) == Err::<
            Seq<(Seq<char>, Seq<char>)>,
            Seq<char>,
        >(error),
    ensures
        expanded_entries(list, workspace, env, m) == Err::<
            Seq<(Seq<char>, Seq<char>)>,
            Seq<char>,
        >(error),
    decreases m - n,
{
    if n < m {
        lemma_expanded_entries_error(list, workspace, env, n, m - 1, error);
    }
}

fn read_env(object: &Json, workspace: &str, env: &Vec<(String, EnvValue)>) -> (out: Result<
    Vec<(String, String)>,
    String,
>)
    ensures
        match out {
            Ok(list) => server_env(object@, workspace@, env@) == Ok::<
                Seq<(Seq<char>, Seq<char>)>,
                Seq<char>,
            >(pair_views(list@)),
            Err(error) => server_env(object@, workspace@, env@) == Err::<
                Seq<(Seq<char>, Seq<char>)>,
                Seq<char>,
            >(error@),
        },
{
    let mut out: Vec<(String, String)> = Vec::new();
    assert(pair_views(out@) =~= Seq::empty());
    let entries = match object.get("env") {
        None => return Ok(out),
        Some(Json::Object(entries)) => entries,
        Some(_) => return Err("env 必须是字符串 map".to_owned()),
    };
    let ghost views = entry_views(entries@);
    proof {
        lemma_entry_views(entries@);
    }
    let mut items: Vec<(String, String)> = Vec::new();
    let mut at: usize = 0;
    assert(pair_views(items@) =~= Seq::empty());
    while at < entries.len()
        invariant
            at <= entries.len(),
            views == entry_views(entries@),
            views.len() == entries@.len(),
            object@.get("env"@) == Some(JsonView::Object(views)),
            text_entries(views, at as int) == Ok::<Seq<(Seq<char>, Seq<char>)>, Seq<char>>(
                pair_views(items@),
            ),
        decreases entries.len() - at,
    {
        proof {
            lemma_entry_views(entries@);
            assert(views[at as int] == (entries@[at as int].0@, entries@[at as int].1@));
        }
        let ghost before = items@;
        match entries[at].1.as_text() {
            Some(text) => {
                let key = entries[at].0.clone();
                items.push((key, text.to_owned()));
                assert(pair_views(items@) =~= pair_views(before).push((key@, text@)));
            },
            None => {
                proof {
                    lemma_entries_error(views, at as int + 1, views.len() as int);
                }
                return Err("env 值必须是字符串".to_owned());
            },
        }
        at += 1;
    }
    let ghost wanted = pair_views(items@);
    at = 0;
    while at < items.len()
        invariant
            at <= items.len(),
            wanted == pair_views(items@),
            text_entries(views, views.len() as int) == Ok::<
                Seq<(Seq<char>, Seq<char>)>,
                Seq<char>,
            >(wanted),
            object@.get("env"@) == Some(JsonView::Object(views)),
            expanded_entries(wanted, workspace@, env@, at as int) == Ok::<
                Seq<(Seq<char>, Seq<char>)>,
                Seq<char>,
            >(pair_views(out@)),
        decreases items.len() - at,
    {
        let ghost before = out@;
        assert(wanted[at as int] == (items@[at as int].0@, items@[at as int].1@));
        match expand_placeholders(items[at].1.as_str(), workspace, env) {
            Ok(text) => {
                let key = items[at].0.clone();
                out.push((key, text));
                assert(pair_views(out@) =~= pair_views(before).push((key@, text@)));
            },
            Err(error) => {
                proof {
                    lemma_expanded_entries_error(
                        wanted,
                        workspace@,
                        env@,
                        at as int + 1,
                        wanted.len() as int,
                        error@,
                    );
                }
                return Err(error);
            },
        }
        at += 1;
    }
    Ok(out)
}

/// How a server is to be started by its settings, or what is wrong with them.
pub fn parse_server_config(
    name: &str,
    value: &Json,
    workspace: &str,
    env: &Vec<(String, EnvValue)>,
) -> (out: Result<ServerPlan, String>)
    ensures
        match out {
            Ok(plan) => server_plan(name@, value@, workspace@, env@) == Ok::<
                ServerPlanView,
                Seq<char>,
            >(plan@),
            Err(error) => server_plan(name@, value@, workspace@, env@) == Err::<
                ServerPlanView,
                Seq<char>,
            >(error@),
        },
{
    if !matches!(value, Json::Object(_)) {
        return Err("server 条目必须是对象".to_owned());
    }
    let command = match value.get_text("command") {
        Some(command) => command,
        None => return Err("command 必须是非空字符串".to_owned()),
    };
    if is_blank(command) {
        return Err("command 必须是非空字符串".to_owned());
    }
    let args = match read_args(value, workspace, env) {
        Ok(args) => args,
        Err(error) => return Err(error),
    };
    let variables = match read_env(value, workspace, env) {
        Ok(variables) => variables,
        Err(error) => return Err(error),
    };
    let cwd = match value.get("cwd") {
        None => None,
        Some(Json::Text(text)) => match expand_placeholders(text.as_str(), workspace, env) {
            Ok(path) => Some(join_path(workspace, path.as_str())),
            Err(error) => return Err(error),
        },
        Some(_) => return Err("cwd 必须是字符串".to_owned()),
    };
    Ok(
        ServerPlan {
            name: name.to_owned(),
            command: command.to_owned(),
            args,
            env: variables,
            cwd,
        },
    )
}

/// How a server is started in the directory that its plan leads to. `canonical`
/// is that directory without links and dots. It has to lie in the workspace.
pub fn settle_cwd(plan: ServerPlan, canonical: Option<&str>, workspace: &str) -> (out: Result<
    ServerConfig,
    String,
>)
    ensures
        match opt_str(canonical) {
            Some(cwd) => if is_within(cwd, workspace@) {
                out matches Ok(config) && config.cwd@ == cwd && config.name == plan.name
                    && config.command == plan.command && config.args == plan.args && config.env
                    == plan.env
            } else {
                out matches Err(error) && error@ == "cwd 必须位于工作区内："@ + cwd
            },
            None => out matches Ok(config) && config.cwd@ == workspace@ && config.name == plan.name
                && config.command == plan.command && config.args == plan.args && config.env
                == plan.env,
        },
{
    let cwd = match canonical {
        Some(cwd) => {
            if !lies_within(cwd, workspace) {
                let mut error = "cwd 必须位于工作区内：".to_owned();
                error.append(cwd);
                return Err(error);
            }
            cwd.to_owned()
        },
        None => workspace.to_owned(),
    };
    Ok(
        ServerConfig {
            name: plan.name,
            command: plan.command,
            args: plan.args,
            env: plan.env,
            cwd,
        },
    )
}

/// The state of a server whose settings are wrong.
pub fn invalid_server(name: &str, error: &str) -> (status: McpServerStatus)
    ensures
        status@ == (ServerStatusView {
            name: name@,
            connected: false,
            tools: Seq::<Seq<char>>::empty(),
            error: Some("配置无效："@ + error@),
        }),
{
    let mut text = "配置无效：".to_owned();
    text.append(error);
    failed(name, text)
}

/// The settings of the servers: how those that are in order are to be started, and the
/// state of the others.
#[derive(Clone, Debug, PartialEq, Eq)]
pub struct ConfigLoad {
    pub valid: Vec<ServerPlan>,
    pub invalid: Vec<McpServerStatus>,
}

/// The views of some plans.
pub open spec fn plan_views(plans: Seq<ServerPlan>) -> Seq<ServerPlanView> {
    Seq::new(plans.len(), |i: int| plans[i]@)
}

/// How the servers are to be started whose settings are in order.
pub open spec fn valid_plans(
    servers: Seq<(Seq<char>, JsonView)>,
    workspace: Seq<char>,
    env: Seq<(String, EnvValue)>,
) -> Seq<ServerPlanView>
    decreases servers.len(),
{
    if servers.len() == 0 {
        Seq::empty()
    } else {
        let front = valid_plans(servers.drop_last(), workspace, env);
        match server_plan(servers.last().0, servers.last().1, workspace, env) {
            Ok(plan) => front.push(plan),
            Err(_) => front,
        }
    }
}

/// The state of the servers whose settings are wrong.
pub open spec fn invalid_servers(
    servers: Seq<(Seq<char>, JsonView)>,
    workspace: Seq<char>,
    env: Seq<(String, EnvValue)>,
) -> Seq<ServerStatusView>
    decreases servers.len(),
{
    if servers.len() == 0 {
        Seq::empty()
    } else {
        let front = invalid_servers(servers.drop_last(), workspace, env);
        match server_plan(servers.last().0, servers.last().1, workspace, env) {
            Ok(_) => front,
            Err(error) => front.push(
                ServerStatusView {
                    name: servers.last().0,
                    connected: false,
                    tools: Seq::<Seq<char>>::empty(),
                    error: Some("配置无效："@ + error),
                },
            ),
        }
    }
}

/// The settings of the servers that a file holds, or what is wrong with the file. A
/// server whose settings are wrong does not keep the others from being started.
pub fn load_config(root: &Json, workspace: &str, env: &Vec<(String, EnvValue)>) -> (out: Result<
    ConfigLoad,
    String,
>)
    ensures
        match root@.field("mcpServers"@) {
            JsonView::Object(servers) => out matches Ok(load) && plan_views(load.valid@)
                == valid_plans(servers, workspace@, env@) && server_views(load.invalid@)
                == invalid_servers(servers, workspace@, env@),
            _ => out matches Err(error) && error@ == "mcp.json 顶层必须包含对象 mcpServers"@,
        },
{
    let servers = match root.get("mcpServers") {
        Some(value) => match value {
            Json::Object(servers) => servers,
            _ => return Err("mcp.json 顶层必须包含对象 mcpServers".to_owned()),
        },
        None => return Err("mcp.json 顶层必须包含对象 mcpServers".to_owned()),
    };
    let ghost all = entry_views(servers@);
    let mut valid: Vec<ServerPlan> = Vec::new();
    let mut invalid: Vec<McpServerStatus> = Vec::new();
    let mut at: usize = 0;
    proof {
        lemma_entry_views(servers@);
    }
    assert(plan_views(valid@) =~= valid_plans(all.take(0), workspace@, env@));
    assert(server_views(invalid@) =~= invalid_servers(all.take(0), workspace@, env@));
    while at < servers.len()
        invariant
            at <= servers.len(),
            all == entry_views(servers@),
            all.len() == servers@.len(),
            forall|i: int|
                0 <= i < servers@.len() ==> #[trigger] all[i] == (servers@[i].0@, servers@[i].1@),
            plan_views(valid@) == valid_plans(all.take(at as int), workspace@, env@),
            server_views(invalid@) == invalid_servers(all.take(at as int), workspace@, env@),
        decreases servers.len() - at,
    {
        let ghost valid_before = valid@;
        let ghost invalid_before = invalid@;
        assert(all.take(at + 1).drop_last() =~= all.take(at as int));
        assert(all.take(at + 1).last() == all[at as int]);
        match parse_server_config(servers[at].0.as_str(), &servers[at].1, workspace, env) {
            Ok(plan) => {
                valid.push(plan);
                assert(plan_views(valid@) =~= plan_views(valid_before).push(plan@));
            },
            Err(error) => {
                let status = invalid_server(servers[at].0.as_str(), error.as_str());
                invalid.push(status);
                assert(server_views(invalid@) =~= server_views(invalid_before).push(status@));
            },
        }
        at += 1;
    }
    assert(all.take(at as int) =~= all);
    Ok(ConfigLoad { valid, invalid })
}

/// What is said of a file with settings that cannot be read or makes no sense, as the
/// verb says.
pub fn config_failure(verb: &str, path: &str, error: &str) -> (text: String)
    ensures
        text@ == verb@ + " "@ + path@ + " 失败："@ + error@,
{
    let mut text = verb.to_owned();
    text.append(" ");
    text.append(path);
    text.append(" 失败：");
    text.append(error);
    text
}

/// The state of every server is listed once, in the order of the servers' names.
pub proof fn law_servers_are_listed_by_name(servers: Seq<ServerStatusView>, i: int, j: int)
    requires
        0 <= i < j < ranked(servers).len(),
    ensures
        !text_before(ranked(servers)[j].name, ranked(servers)[i].name),
        ranked(servers).to_multiset() == servers.to_multiset(),
{
    lemma_ranked_permutes(servers);
    lemma_ranked_in_order(servers);
    let list = ranked(servers);
    assert(!list[j].before(&list[i]));
}

/// In the name of an outside tool every letter, digit and underscore keeps its place, in
/// lower case, and every other character is an underscore.
pub proof fn law_bridged_names_spell_server_and_tool(server: Seq<char>, tool: Seq<char>, i: int)
    ensures
        bridged_name(server, tool).len() == 7 + server.len() + tool.len(),
        bridged_name(server, tool).take(5) == "mcp__"@,
        bridged_name(server, tool).subrange(5 + server.len() as int, 7 + server.len() as int)
            == "__"@,
        0 <= i < server.len() ==> bridged_name(server, tool)[5 + i] == safe_char(server[i]),
        0 <= i < tool.len() ==> bridged_name(server, tool)[7 + server.len() + i] == safe_char(
            tool[i],
        ),
{
    reveal_strlit("mcp__");
    reveal_strlit("__");
    let name = bridged_name(server, tool);
    assert("mcp__"@.len() == 5 && "__"@.len() == 2);
    assert(name.take(5) =~= "mcp__"@);
    assert(name.subrange(5 + server.len() as int, 7 + server.len() as int) =~= "__"@);
}

/// Small letters, digits and underscores stay, capital letters become small, and every
/// other character becomes an underscore.
pub proof fn law_safe_characters(c: char)
    ensures
        'a' <= c <= 'z' || '0' <= c <= '9' || c == '_' ==> safe_char(c) == c,
        'A' <= c <= 'Z' ==> safe_char(c) as int == c as int + 32,
        !('a' <= c <= 'z' || 'A' <= c <= 'Z' || '0' <= c <= '9') ==> safe_char(c) == '_',
{
}

/// A tool is taken exactly where it has a name with some text and its schema, if it has one,
/// is an object. Its name, description and schema are those that the server gave.
pub proof fn law_tools_are_taken_as_the_server_gives_them(tool: JsonView)
    ensures
        remote_tool(tool) is Ok <==> (tool.field("name"@) is Text && !is_blank_text(
            tool.field("name"@)->Text_0,
        ) && (tool.get("inputSchema"@) is None || tool.field("inputSchema"@) is Object)),
        remote_tool(tool) matches Ok(taken) ==> {
            &&& JsonView::Text(taken.name) == tool.field("name"@)
            &&& tool.field("description"@) is Text ==> JsonView::Text(taken.description)
                == tool.field("description"@)
            &&& tool.get("inputSchema"@) is Some ==> taken.input_schema == tool.field(
                "inputSchema"@,
            )
            &&& tool.get("inputSchema"@) is None ==> taken.input_schema.field("type"@)
                == JsonView::Text("object"@)
        },
{
    let entries = no_entries().push(("type"@, JsonView::Text("object"@)));
    law_objects_give_the_first_entry_of_a_key(entries, "type"@, 0);
}

/// The tools of a server are taken all or none: one for each that it lists, in its order.
pub proof fn law_all_listed_tools_are_taken(list: Seq<JsonView>, n: int)
    requires
        0 <= n <= list.len(),
    ensures
        remote_tools(list, n) matches Ok(tools) ==> tools.len() == n && forall|i: int|
            0 <= i < n ==> remote_tool(list[i]) == Ok::<RemoteToolView, Seq<char>>(
                #[trigger] tools[i],
            ),
        remote_tools(list, n) matches Err(error) ==> exists|i: int|
            0 <= i < n && remote_tool(#[trigger] list[i]) == Err::<RemoteToolView, Seq<char>>(
                error,
            ),
    decreases n,
{
    if n > 0 {
        law_all_listed_tools_are_taken(list, n - 1);
        assert(remote_tool(list[n - 1]) == remote_tool(list[n - 1]));
    }
}

/// A server is connected exactly where it answered and its tools have names that are free
/// and differ. All its tools are then there, behind those that were there before, each
/// under the name of the server and its own, and the status names them.
pub proof fn law_connected_server_brings_all_its_tools(
    tools: Seq<McpToolView>,
    outcome: ServerOutcome,
    remote: Seq<RemoteTool>,
)
    requires
        outcome.result matches Ok(given) && given@ == remote,
    ensures
        ({
            let status = status_after(tools, outcome);
            let now = tools_after(tools, outcome);
            let free = forall|i: int, j: int|
                0 <= i < remote.len() && 0 <= j < tools.len() ==> bridged_name(
                    outcome.name@,
                    (#[trigger] remote[i]).name@,
                ) != (#[trigger] tools[j]).bridge_name;
            let differ = forall|i: int, j: int|
                0 <= i < j < remote.len() ==> bridged_name(
                    outcome.name@,
                    (#[trigger] remote[i]).name@,
                ) != bridged_name(outcome.name@, (#[trigger] remote[j]).name@);
            &&& status.name == outcome.name@
            &&& status.connected <==> free && differ
            &&& status.connected ==> {
                &&& status.error is None
                &&& now.len() == tools.len() + remote.len()
                &&& now.take(tools.len() as int) == tools
                &&& status.tools.len() == remote.len()
                &&& forall|i: int|
                    0 <= i < remote.len() ==> {
                        &&& now[tools.len() + i].remote_name == (#[trigger] remote[i]).name@
                        &&& now[tools.len() + i].description == remote[i].description@
                        &&& now[tools.len() + i].input_schema == remote[i].input_schema@
                        &&& now[tools.len() + i].server_name == outcome.name@
                        &&& now[tools.len() + i].bridge_name == bridged_name(
                            outcome.name@,
                            remote[i].name@,
                        )
                        &&& status.tools[i] == bridged_name(outcome.name@, remote[i].name@)
                    }
            }
        }),
{
    let views = remote_views(remote);
    let n = remote.len() as int;
    let server = outcome.name@;
    lemma_server_tools_taken(tools, server, views, n);
    let taken = with_server_tools(tools, server, views, n);
    if let Ok(now) = taken {
        assert(tool_names(now).skip(tools.len() as int).len() == n);
        assert forall|i: int, j: int|
            0 <= i < remote.len() && 0 <= j < tools.len() implies bridged_name(
            server,
            (#[trigger] remote[i]).name@,
        ) != (#[trigger] tools[j]).bridge_name by {
            assert(views[i].name == remote[i].name@);
            assert(now[tools.len() + i] == bridged(server, views[i]));
            assert(now.take(tools.len() as int)[j] == now[j]);
        }
        assert forall|i: int, j: int| 0 <= i < j < remote.len() implies bridged_name(
            server,
            (#[trigger] remote[i]).name@,
        ) != bridged_name(server, (#[trigger] remote[j]).name@) by {
            assert(now[tools.len() + i] == bridged(server, views[i]));
            assert(now[tools.len() + j] == bridged(server, views[j]));
        }
        assert forall|i: int| 0 <= i < remote.len() implies now[tools.len() + i] == bridged(
            server,
            (#[trigger] remote[i])@,
        ) by {
            assert(views[i] == remote[i]@);
            assert(now[tools.len() + i] == bridged(server, views[i]));
        }
    } else {
        let (i, j) = choose|i: int, j: int|
            0 <= i < n && 0 <= j < tools.len() + i && bridged_name(
                server,
                (#[trigger] views[i]).name,
            ) == (#[trigger] taken_name(tools, server, views, j));
        assert(views[i].name == remote[i].name@);
        if j >= tools.len() {
            assert(views[j - tools.len()].name == remote[j - tools.len()].name@);
        }
    }
}

spec fn taken_name(
    tools: Seq<McpToolView>,
    server: Seq<char>,
    remote: Seq<RemoteToolView>,
    j: int,
) -> Seq<char> {
    if j < tools.len() {
        tools[j].bridge_name
    } else {
        bridged_name(server, remote[j - tools.len()].name)
    }
}

proof fn lemma_server_tools_taken(
    tools: Seq<McpToolView>,
    server: Seq<char>,
    remote: Seq<RemoteToolView>,
    n: int,
)
    requires
        0 <= n <= remote.len(),
    ensures
        match with_server_tools(tools, server, remote, n) {
            Ok(now) => {
                &&& now.len() == tools.len() + n
                &&& now.take(tools.len() as int) == tools
                &&& forall|i: int|
                    0 <= i < n ==> now[tools.len() + i] == bridged(server, #[trigger] remote[i])
                &&& forall|i: int, j: int|
                    0 <= j < i < now.len() && tools.len() <= i ==> (
                    #[trigger] now[i]).bridge_name != (#[trigger] now[j]).bridge_name
            },
            Err(_) => exists|i: int, j: int|
                0 <= i < n && 0 <= j < tools.len() + i && bridged_name(
                    server,
                    (#[trigger] remote[i]).name,
                ) == (#[trigger] taken_name(tools, server, remote, j)),
        },
    decreases n,
{
    if n == 0 {
        assert(tools.take(tools.len() as int) =~= tools);
    } else {
        lemma_server_tools_taken(tools, server, remote, n - 1);
        if let Ok(before) = with_server_tools(tools, server, remote, n - 1) {
            let tool = bridged(server, remote[n - 1]);
            let names = tool_names(before);
            if names.contains(tool.bridge_name) {
                let j = choose|j: int| 0 <= j < names.len() && names[j] == tool.bridge_name;
                assert(before[j].bridge_name == tool.bridge_name);
                if j < tools.len() {
                    assert(before.take(tools.len() as int)[j] == before[j]);
                } else {
                    assert(before[tools.len() + (j - tools.len())] == bridged(
                        server,
                        remote[j - tools.len()],
                    ));
                }
                assert(taken_name(tools, server, remote, j) == tool.bridge_name);
                assert(remote[n - 1] == remote[n - 1]);
            } else {
                let now = before.push(tool);
                assert(now.take(tools.len() as int) =~= before.take(tools.len() as int));
                assert forall|i: int, j: int|
                    0 <= j < i < now.len() && tools.len() <= i implies (
                #[trigger] now[i]).bridge_name != (#[trigger] now[j]).bridge_name by {
                    if i < before.len() {
                        assert(now[i] == before[i] && now[j] == before[j]);
                    } else {
                        assert(names.contains(names[j]));
                    }
                }
            }
        }
    }
}

/// A server that did not answer is shown with the reason that was given.
pub proof fn law_silent_server_is_shown_with_its_reason(
    tools: Seq<McpToolView>,
    outcome: ServerOutcome,
)
    ensures
        outcome.result matches Err(error) ==> {
            &&& !status_after(tools, outcome).connected
            &&& status_after(tools, outcome).name == outcome.name@
            &&& status_after(tools, outcome).tools.len() == 0
            &&& status_after(tools, outcome).error == Some(error@)
        },
{
}

/// No server takes away the tools of those before it.
pub proof fn law_tools_stay_when_servers_come(outcomes: Seq<ServerOutcome>, n: int)
    requires
        0 < n <= outcomes.len(),
    ensures
        tools_of(outcomes, n - 1).len() <= tools_of(outcomes, n).len(),
        tools_of(outcomes, n).take(tools_of(outcomes, n - 1).len() as int) == tools_of(
            outcomes,
            n - 1,
        ),
{
    let tools = tools_of(outcomes, n - 1);
    assert(tools.take(tools.len() as int) =~= tools);
    if let Ok(remote) = outcomes[n - 1].result {
        lemma_server_tools_taken(
            tools,
            outcomes[n - 1].name@,
            remote_views(remote@),
            remote@.len() as int,
        );
    }
}

/// Every server has its place among the statuses, behind those whose configuration could
/// not be read.
pub proof fn law_every_server_has_its_status(
    invalid: Seq<ServerStatusView>,
    outcomes: Seq<ServerOutcome>,
    n: int,
    i: int,
)
    requires
        0 <= i < n <= outcomes.len(),
    ensures
        statuses_of(invalid, outcomes, n).len() == invalid.len() + n,
        statuses_of(invalid, outcomes, n).take(invalid.len() as int) == invalid,
        statuses_of(invalid, outcomes, n)[invalid.len() + i].name == outcomes[i].name@,
    decreases n,
{
    let before = statuses_of(invalid, outcomes, n - 1);
    if n == 1 {
        assert(before == invalid);
        assert(invalid.take(invalid.len() as int) =~= invalid);
    } else {
        let k = if i < n - 1 {
            i
        } else {
            i - 1
        };
        law_every_server_has_its_status(invalid, outcomes, n - 1, k);
    }
    assert(statuses_of(invalid, outcomes, n).take(invalid.len() as int) =~= before.take(
        invalid.len() as int,
    ));
}

/// A placeholder stands for the workspace or for the variable that it names. What stands
/// before it stays, and what stands behind it is treated in the same way.
pub proof fn law_placeholders_stand_for_their_values(
    head: Seq<char>,
    key: Seq<char>,
    tail: Seq<char>,
    workspace: Seq<char>,
    env: Seq<(String, EnvValue)>,
)
    requires
        !crate::text::contains_text(head, seq!['$', '{']),
        forall|i: int| 0 <= i < key.len() ==> #[trigger] key[i] != '}',
        key.len() > 0,
    ensures
        ({
            let input = head + seq!['$', '{'] + key + seq!['}'] + tail;
            let value = if key == "WORKSPACE_ROOT"@ {
                Ok(workspace)
            } else {
                env_value(env, key)
            };
            match (value, expanded(tail, workspace, env)) {
                (Ok(value), Ok(rest)) => expanded(input, workspace, env) == Ok::<
                    Seq<char>,
                    Seq<char>,
                >(head + value + rest),
                _ => expanded(input, workspace, env) is Err,
            }
        }),
{
    let open = seq!['$', '{'];
    let close = seq!['}'];
    let input = head + open + key + close + tail;
    let start = head.len() as int;
    assert(input =~= head + open + (key + close + tail));
    lemma_first_opening(head, key + close + tail);
    let after = input.skip(start + 2);
    assert(after =~= key + close + tail);
    let end = key.len() as int;
    lemma_first_closing(key, tail);
    assert(after.take(end) =~= key);
    assert(after.skip(end + 1) =~= tail);
    assert(input.take(start) =~= head);
}

proof fn lemma_first_opening(head: Seq<char>, rest: Seq<char>)
    requires
        !crate::text::contains_text(head, seq!['$', '{']),
    ensures
        first_at(head + seq!['$', '{'] + rest, seq!['$', '{'], 0) == Some(head.len() as int),
{
    let open = seq!['$', '{'];
    let input = head + open + rest;
    let start = head.len() as int;
    assert(input.subrange(start, start + 2) =~= open);
    assert forall|i: int| 0 <= i < start implies !#[trigger] crate::text::occurs_at(
        input,
        open,
        i,
    ) by {
        lemma_no_opening_at(head, rest, i);
    }
    lemma_first_at_is(input, open, 0, start);
}

proof fn lemma_no_opening_at(head: Seq<char>, rest: Seq<char>, i: int)
    requires
        !crate::text::contains_text(head, seq!['$', '{']),
        0 <= i < head.len(),
    ensures
        !crate::text::occurs_at(head + seq!['$', '{'] + rest, seq!['$', '{'], i),
{
    let open = seq!['$', '{'];
    let input = head + open + rest;
    let piece = input.subrange(i, i + 2);
    assert(open[1] == '{');
    assert(piece[1] == input[i + 1]);
    if i < head.len() - 1 {
        assert(piece =~= head.subrange(i, i + 2));
        assert(!crate::text::occurs_at(head, open, i));
    } else {
        assert(input[i + 1] == '$');
    }
}

proof fn lemma_first_at_is(s: Seq<char>, needle: Seq<char>, from: int, at: int)
    requires
        0 <= from <= at,
        crate::text::occurs_at(s, needle, at),
        forall|i: int| from <= i < at ==> !#[trigger] crate::text::occurs_at(s, needle, i),
    ensures
        first_at(s, needle, from) == Some(at),
    decreases at - from,
{
    if from < at {
        assert(!crate::text::occurs_at(s, needle, from));
        lemma_first_at_is(s, needle, from + 1, at);
    }
}

proof fn lemma_first_closing(key: Seq<char>, tail: Seq<char>)
    requires
        forall|i: int| 0 <= i < key.len() ==> #[trigger] key[i] != '}',
    ensures
        first_at(key + seq!['}'] + tail, seq!['}'], 0) == Some(key.len() as int),
{
    let close = seq!['}'];
    let after = key + close + tail;
    let end = key.len() as int;
    assert(after.subrange(end, end + 1) =~= close);
    assert forall|i: int| 0 <= i < end implies !#[trigger] crate::text::occurs_at(
        after,
        close,
        i,
    ) by {
        assert(after.subrange(i, i + 1)[0] == key[i]);
        assert(close[0] == '}');
    }
    lemma_first_at_is(after, close, 0, end);
}

/// A variable has the value that stands with its name first.
pub proof fn law_variables_have_their_values(
    env: Seq<(String, EnvValue)>,
    key: Seq<char>,
    k: int,
)
    requires
        0 <= k <= env.len(),
        forall|j: int| 0 <= j < k ==> (#[trigger] env[j]).0@ != key,
        k < env.len() ==> env[k].0@ == key,
    ensures
        env_value(env, key) is Ok <==> k < env.len() && env[k].1 is Present,
        k < env.len() ==> (env[k].1 matches EnvValue::Present(value) ==> env_value(env, key)
            == Ok::<Seq<char>, Seq<char>>(value@)),
    decreases env.len(),
{
    if k > 0 {
        assert(env[0].0@ != key);
        let rest = env.skip(1);
        assert forall|j: int| 0 <= j < k - 1 implies (#[trigger] rest[j]).0@ != key by {
            assert(env[j + 1].0@ != key);
        }
        law_variables_have_their_values(rest, key, k - 1);
    }
}

proof fn lemma_items_are_texts(list: Seq<JsonView>, n: int)
    requires
        0 <= n <= list.len(),
    ensures
        text_items(list, n) matches Ok(items) ==> items.len() == n && forall|i: int|
            0 <= i < n ==> list[i] == JsonView::Text(#[trigger] items[i]),
        (forall|i: int| 0 <= i < n ==> (#[trigger] list[i]) is Text) ==> text_items(list, n) is Ok,
    decreases n,
{
    if n > 0 {
        lemma_items_are_texts(list, n - 1);
        assert(list[n - 1] == list[n - 1]);
    }
}

proof fn lemma_all_expanded(
    list: Seq<Seq<char>>,
    workspace: Seq<char>,
    env: Seq<(String, EnvValue)>,
    n: int,
)
    requires
        0 <= n <= list.len(),
    ensures
        expanded_all(list, workspace, env, n) matches Ok(out) ==> out.len() == n && forall|i: int|
            0 <= i < n ==> expanded(list[i], workspace, env) == Ok::<Seq<char>, Seq<char>>(
                #[trigger] out[i],
            ),
    decreases n,
{
    if n > 0 {
        lemma_all_expanded(list, workspace, env, n - 1);
    }
}

proof fn lemma_entries_are_texts(entries: Seq<(Seq<char>, JsonView)>, n: int)
    requires
        0 <= n <= entries.len(),
    ensures
        text_entries(entries, n) matches Ok(list) ==> list.len() == n && forall|i: int|
            0 <= i < n ==> entries[i] == ((#[trigger] list[i]).0, JsonView::Text(list[i].1)),
    decreases n,
{
    if n > 0 {
        lemma_entries_are_texts(entries, n - 1);
    }
}

proof fn lemma_entries_expanded(
    list: Seq<(Seq<char>, Seq<char>)>,
    workspace: Seq<char>,
    env: Seq<(String, EnvValue)>,
    n: int,
)
    requires
        0 <= n <= list.len(),
    ensures
        expanded_entries(list, workspace, env, n) matches Ok(out) ==> out.len() == n && forall|
            i: int,
        |
            0 <= i < n ==> list[i].0 == (#[trigger] out[i]).0 && expanded(
                list[i].1,
                workspace,
                env,
            ) == Ok::<Seq<char>, Seq<char>>(out[i].1),
    decreases n,
{
    if n > 0 {
        lemma_entries_expanded(list, workspace, env, n - 1);
    }
}

/// A server is started with the command that its entry gives, and with each argument and
/// each variable of the entry, in their order and with their placeholders filled in; in the
/// directory of the entry, looked up from the workspace, where there is one.
pub proof fn law_servers_are_started_as_configured(
    name: Seq<char>,
    value: JsonView,
    workspace: Seq<char>,
    env: Seq<(String, EnvValue)>,
    plan: ServerPlanView,
)
    requires
        server_plan(name, value, workspace, env) == Ok::<ServerPlanView, Seq<char>>(plan),
    ensures
        plan.name == name,
        value.field("command"@) == JsonView::Text(plan.command),
        !is_blank_text(plan.command),
        value.get("args"@) is None ==> plan.args.len() == 0,
        value.get("args"@) is Some ==> value.field("args"@) is List,
        value.field("args"@) matches JsonView::List(list) ==> plan.args.len() == list.len()
            && forall|i: int|
            0 <= i < list.len() ==> (#[trigger] list[i]) is Text && expanded(
                list[i]->Text_0,
                workspace,
                env,
            ) == Ok::<Seq<char>, Seq<char>>(plan.args[i]),
        value.get("env"@) is None ==> plan.env.len() == 0,
        value.get("env"@) is Some ==> value.field("env"@) is Object,
        value.field("env"@) matches JsonView::Object(entries) ==> plan.env.len() == entries.len()
            && forall|i: int|
            0 <= i < entries.len() ==> (#[trigger] entries[i]).1 is Text && plan.env[i].0
                == entries[i].0 && expanded(entries[i].1->Text_0, workspace, env) == Ok::<
                Seq<char>,
                Seq<char>,
            >(plan.env[i].1),
        value.get("cwd"@) is None ==> plan.cwd is None,
        value.get("cwd"@) is Some ==> value.field("cwd"@) is Text && plan.cwd is Some && (expanded(
            value.field("cwd"@)->Text_0,
            workspace,
            env,
        ) matches Ok(path) && plan.cwd == Some(joined(workspace, path))),
{
    if let Some(JsonView::List(list)) = value.get("args"@) {
        lemma_items_are_texts(list, list.len() as int);
        if let Ok(items) = text_items(list, list.len() as int) {
            lemma_all_expanded(items, workspace, env, items.len() as int);
            assert forall|i: int| 0 <= i < list.len() implies (#[trigger] list[i]) is Text
                && expanded(list[i]->Text_0, workspace, env) == Ok::<Seq<char>, Seq<char>>(
                plan.args[i],
            ) by {
                assert(list[i] == JsonView::Text(items[i]));
                assert(expanded(items[i], workspace, env) == Ok::<Seq<char>, Seq<char>>(
                    plan.args[i],
                ));
            }
        }
    }
    if let Some(JsonView::Object(entries)) = value.get("env"@) {
        lemma_entries_are_texts(entries, entries.len() as int);
        if let Ok(list) = text_entries(entries, entries.len() as int) {
            lemma_entries_expanded(list, workspace, env, list.len() as int);
            assert forall|i: int| 0 <= i < entries.len() implies (#[trigger] entries[i]).1 is Text
                && plan.env[i].0 == entries[i].0 && expanded(
                entries[i].1->Text_0,
                workspace,
                env,
            ) == Ok::<Seq<char>, Seq<char>>(plan.env[i].1) by {
                assert(entries[i] == (list[i].0, JsonView::Text(list[i].1)));
                assert(list[i].0 == plan.env[i].0);
            }
        }
    }
}

/// An entry that names a command and nothing else is always good.
pub proof fn law_a_command_alone_is_enough(
    name: Seq<char>,
    value: JsonView,
    workspace: Seq<char>,
    env: Seq<(String, EnvValue)>,
)
    requires
        value is Object,
        value.field("command"@) is Text,
        !is_blank_text(value.field("command"@)->Text_0),
        value.get("args"@) is None,
        value.get("env"@) is None,
        value.get("cwd"@) is None,
    ensures
        server_plan(name, value, workspace, env) is Ok,
{
}

/// Every entry is used or shown with what is wrong with it, never both and never neither.
pub proof fn law_every_server_entry_is_used_or_shown(
    servers: Seq<(Seq<char>, JsonView)>,
    workspace: Seq<char>,
    env: Seq<(String, EnvValue)>,
    i: int,
)
    requires
        0 <= i < servers.len(),
    ensures
        valid_plans(servers, workspace, env).len() + invalid_servers(servers, workspace, env).len()
            == servers.len(),
        match server_plan(servers[i].0, servers[i].1, workspace, env) {
            Ok(plan) => valid_plans(servers, workspace, env).contains(plan),
            Err(error) => exists|k: int|
                0 <= k < invalid_servers(servers, workspace, env).len() && {
                    let shown = #[trigger] invalid_servers(servers, workspace, env)[k];
                    shown.name == servers[i].0 && !shown.connected && shown.tools.len() == 0
                        && shown.error == Some("配置无效："@ + error)
                },
        },
    decreases servers.len(),
{
    let front = servers.drop_last();
    let plans = valid_plans(front, workspace, env);
    let shown = invalid_servers(front, workspace, env);
    let all_plans = valid_plans(servers, workspace, env);
    let all_shown = invalid_servers(servers, workspace, env);
    if servers.len() > 1 {
        let k = if i < servers.len() - 1 {
            i
        } else {
            i - 1
        };
        law_every_server_entry_is_used_or_shown(front, workspace, env, k);
    }
    if i < servers.len() - 1 {
        match server_plan(servers[i].0, servers[i].1, workspace, env) {
            Ok(plan) => {
                let k = choose|k: int| 0 <= k < plans.len() && plans[k] == plan;
                assert(all_plans[k] == plan);
            },
            Err(error) => {
                let k = choose|k: int|
                    0 <= k < shown.len() && (#[trigger] shown[k]).name == servers[i].0
                        && !shown[k].connected && shown[k].tools.len() == 0 && shown[k].error
                        == Some("配置无效："@ + error);
                assert(all_shown[k] == shown[k]);
            },
        }
    } else {
        match server_plan(servers[i].0, servers[i].1, workspace, env) {
            Ok(plan) => {
                assert(all_plans[plans.len() as int] == plan);
            },
            Err(error) => {
                assert(all_shown[shown.len() as int].name == servers[i].0);
            },
        }
    }
}

/// A server that is let go keeps its name, its tools and its error.
pub proof fn law_servers_that_are_let_go_stay_listed(servers: Seq<ServerStatusView>, i: int)
    requires
        0 <= i < servers.len(),
    ensures
        disconnected(servers).len() == servers.len(),
        !disconnected(servers)[i].connected,
        disconnected(servers)[i].name == servers[i].name,
        disconnected(servers)[i].tools == servers[i].tools,
        disconnected(servers)[i].error == servers[i].error,
{
}

/// A server runs in the directory of its entry only where that lies within the workspace,
/// and in the workspace where it has none; everything else stays as planned.
pub proof fn law_servers_run_within_the_workspace(
    plan: ServerPlan,
    canonical: Option<&str>,
    workspace: &str,
    out: Result<ServerConfig, String>,
)
    requires
        call_ensures(settle_cwd, (plan, canonical, workspace), out),
    ensures
        out is Ok <==> canonical is None || is_within((canonical->0)@, workspace@),
        out matches Ok(config) ==> {
            &&& config.name == plan.name
            &&& config.command == plan.command
            &&& config.args == plan.args
            &&& config.env == plan.env
            &&& canonical is None ==> config.cwd@ == workspace@
            &&& canonical is Some ==> config.cwd@ == (canonical->0)@
        },
{
}

/// The file of the servers can be used exactly where it lists them in an object; all good
/// entries are then used.
pub proof fn law_all_good_entries_are_used(
    root: &Json,
    workspace: &str,
    env: &Vec<(String, EnvValue)>,
    out: Result<ConfigLoad, String>,
    servers: Seq<(Seq<char>, JsonView)>,
    i: int,
    plan: ServerPlanView,
)
    requires
        call_ensures(load_config, (root, workspace, env), out),
        root@.field("mcpServers"@) == JsonView::Object(servers),
        0 <= i < servers.len(),
        server_plan(servers[i].0, servers[i].1, workspace@, env@) == Ok::<
            ServerPlanView,
            Seq<char>,
        >(plan),
    ensures
        out is Ok,
        plan_views((out->Ok_0).valid@).contains(plan),
        (out->Ok_0).valid@.len() + (out->Ok_0).invalid@.len() == servers.len(),
{
    law_every_server_entry_is_used_or_shown(servers, workspace@, env@, i);
    let load = out->Ok_0;
    assert(plan_views(load.valid@).len() == load.valid@.len());
    assert(server_views(load.invalid@).len() == load.invalid@.len());
}

} // verus!

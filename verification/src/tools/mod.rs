//! The tools that a model may call, and the check of their arguments.
pub mod exec;
pub mod write;

use vstd::prelude::*;

use crate::json::{
    entry, entry_views, json_views, lemma_entry_views, lemma_json_views, Json, JsonNumber, JsonView,
};
use crate::order::{
    is_text_before, lemma_compared_views, lemma_ranked_in_order, lemma_ranked_permutes,
    lemma_ranked_views, lemma_text_before_total, lemma_text_before_transitive, ranked, stable_sort,
    text_before, views_of, Ranked, Sortable, TotallyRanked,
};
use crate::provider::{Message, ToolSpec, ToolSpecView};
use crate::text::{same_text, texts};

verus! {

/// Why a tool call is refused.
#[derive(Clone, Debug, PartialEq, Eq)]
pub enum ToolError {
    /// There is no tool with the name.
    UnknownTool(String),
    /// The arguments do not fit the tool's schema; how, in words.
    InvalidArguments(String),
    /// A tool that a sub-agent asks for is not to be had.
    UnavailableTool(String),
}

impl ToolError {
    /// The error in words.
    pub fn message(&self) -> (text: String)
        ensures
            text@ == (match *self {
                ToolError::UnknownTool(name) => "未知工具: "@ + name@,
                ToolError::InvalidArguments(complaint) => "工具参数校验失败: "@ + complaint@,
                ToolError::UnavailableTool(name) => "不可用的子 Agent 工具: "@ + name@,
            }),
    {
        match self {
            ToolError::UnknownTool(name) => {
                let mut text = "未知工具: ".to_owned();
                text.append(name.as_str());
                text
            },
            ToolError::InvalidArguments(complaint) => {
                let mut text = "工具参数校验失败: ".to_owned();
                text.append(complaint.as_str());
                text
            },
            ToolError::UnavailableTool(name) => {
                let mut text = "不可用的子 Agent 工具: ".to_owned();
                text.append(name.as_str());
                text
            },
        }
    }
}

/// A tool that the model may call.
pub trait Tool {
    /// What the model is told of the tool.
    spec fn described(&self) -> ToolSpecView;

    /// Whether calling the tool changes nothing.
    spec fn harmless(&self) -> bool;

    /// What the model is told of the tool.
    fn spec(&self) -> (out: ToolSpec)
        ensures
            out@ == self.described(),
    ;

    /// Whether calling the tool changes nothing.
    fn is_read_only(&self) -> (read_only: bool)
        ensures
            read_only == self.harmless(),
    ;
}

/// What a tool call brings.
#[derive(Clone, Debug, PartialEq, Eq)]
pub struct ToolOutput {
    pub content: String,
    /// Messages for the model that are not kept.
    pub transient_messages: Vec<Message>,
}

impl ToolOutput {
    /// Plain text.
    pub fn text(content: &str) -> (out: ToolOutput)
        ensures
            out.content@ == content@,
            out.transient_messages@.len() == 0,
    {
        ToolOutput { content: content.to_owned(), transient_messages: Vec::new() }
    }
}

/// Whether a value is of the kind that a schema names. A kind that is not known
/// excludes nothing.
pub open spec fn fits_kind(kind: Seq<char>, value: JsonView) -> bool {
    if kind == "object"@ {
        value is Object
    } else if kind == "array"@ {
        value is List
    } else if kind == "string"@ {
        value is Text
    } else if kind == "number"@ {
        value is Unsigned || value is Negative || value is Other
    } else if kind == "integer"@ {
        value is Unsigned || value is Negative
    } else if kind == "boolean"@ {
        value is Bool
    } else if kind == "null"@ {
        value is Null
    } else {
        true
    }
}

fn is_of_kind(kind: &str, value: &Json) -> (fits: bool)
    ensures
        fits == fits_kind(kind@, value@),
{
    if same_text(kind, "object") {
        matches!(value, Json::Object(_))
    } else if same_text(kind, "array") {
        matches!(value, Json::List(_))
    } else if same_text(kind, "string") {
        matches!(value, Json::Text(_))
    } else if same_text(kind, "number") {
        matches!(value, Json::Number(_))
    } else if same_text(kind, "integer") {
        matches!(value, Json::Number(JsonNumber::Unsigned(_)) | Json::Number(JsonNumber::Negative(_)))
    } else if same_text(kind, "boolean") {
        matches!(value, Json::Bool(_))
    } else if same_text(kind, "null") {
        matches!(value, Json::Null)
    } else {
        true
    }
}

/// The first of the fields that a schema asks for, from one on, that is missing.
pub open spec fn missing_field(
    required: Seq<JsonView>,
    entries: Seq<(Seq<char>, JsonView)>,
    from: int,
) -> Option<Seq<char>>
    decreases required.len() - from,
{
    if from >= required.len() {
        None
    } else {
        match required[from] {
            JsonView::Text(name) => if entry(entries, name) is None {
                Some(name)
            } else {
                missing_field(required, entries, from + 1)
            },
            _ => missing_field(required, entries, from + 1),
        }
    }
}

/// Whether a schema forbids the fields that it does not speak of. It does so only
/// by saying that further properties are `false`.
pub open spec fn forbids_extra(schema: JsonView) -> bool {
    schema.get("additionalProperties"@) == Some(JsonView::Bool(false))
}

/// What is wrong with a value by a schema; nothing where it fits.
pub open spec fn complaint(schema: JsonView, value: JsonView, path: Seq<char>) -> Option<Seq<char>>
    decreases value, 1int,
{
    match schema.field("type"@) {
        JsonView::Text(kind) => if !fits_kind(kind, value) {
            Some(path + " 应为 "@ + kind)
        } else {
            object_complaint(schema, value, path)
        },
        _ => object_complaint(schema, value, path),
    }
}

/// What is wrong with the fields of a value; nothing where it is no object.
pub open spec fn object_complaint(schema: JsonView, value: JsonView, path: Seq<char>) -> Option<
    Seq<char>,
>
    decreases value, 0int,
{
    match value {
        JsonView::Object(entries) => {
            let missing = match schema.field("required"@) {
                JsonView::List(required) => missing_field(required, entries, 0),
                _ => None,
            };
            match missing {
                Some(name) => Some(path + " 缺少必填字段 "@ + name),
                None => match schema.field("properties"@) {
                    JsonView::Object(properties) => fields_complaint(
                        schema,
                        properties,
                        entries,
                        0,
                        path,
                    ),
                    _ => None,
                },
            }
        },
        _ => None,
    }
}

/// What is wrong with the fields of an object from one on, by what its schema says
/// of each.
pub open spec fn fields_complaint(
    schema: JsonView,
    properties: Seq<(Seq<char>, JsonView)>,
    entries: Seq<(Seq<char>, JsonView)>,
    from: int,
    path: Seq<char>,
) -> Option<Seq<char>>
    decreases entries, entries.len() - from,
{
    if from < 0 || from >= entries.len() {
        None
    } else {
        let name = entries[from].0;
        let here = match entry(properties, name) {
            Some(child_schema) => complaint(child_schema, entries[from].1, path + "."@ + name),
            None => if forbids_extra(schema) {
                Some(path + " 不允许额外字段 "@ + name)
            } else {
                None
            },
        };
        match here {
            Some(text) => Some(text),
            None => fields_complaint(schema, properties, entries, from + 1, path),
        }
    }
}

fn find_missing(required: &Vec<Json>, value: &Json) -> (missing: Option<String>)
    requires
        value@ is Object,
    ensures
        match missing {
            Some(name) => missing_field(json_views(required@), value@->Object_0, 0) == Some(name@),
            None => missing_field(json_views(required@), value@->Object_0, 0) is None,
        },
{
    let ghost entries = value@->Object_0;
    let ghost list = json_views(required@);
    let mut at: usize = 0;
    while at < required.len()
        invariant
            at <= required.len(),
            value@ == JsonView::Object(entries),
            list == json_views(required@),
            missing_field(list, entries, 0) == missing_field(list, entries, at as int),
        decreases required.len() - at,
    {
        proof {
            lemma_json_views(required@);
            assert(list[at as int] == required@[at as int]@);
        }
        if let Some(name) = required[at].as_text() {
            if value.get(name).is_none() {
                return Some(name.to_owned());
            }
        }
        at += 1;
    }
    proof {
        lemma_json_views(required@);
    }
    None
}

fn wrong(path: &str, middle: &str, end: &str) -> (out: Result<(), ToolError>)
    ensures
        out matches Err(ToolError::InvalidArguments(text)) && text@ == path@ + middle@ + end@,
{
    let mut text = path.to_owned();
    text.append(middle);
    text.append(end);
    Err(ToolError::InvalidArguments(text))
}

/// Whether the outcome of a check is the one that a complaint asks for.
pub open spec fn says(out: Result<(), ToolError>, complaint: Option<Seq<char>>) -> bool {
    match complaint {
        Some(text) => out matches Err(ToolError::InvalidArguments(said)) && said@ == text,
        None => out is Ok,
    }
}

/// Checks a value by a schema.
pub fn validate_value(schema: &Json, value: &Json, path: &str) -> (out: Result<(), ToolError>)
    ensures
        says(out, complaint(schema@, value@, path@)),
    decreases value,
{
    if let Some(kind) = schema.get_text("type") {
        if !is_of_kind(kind, value) {
            return wrong(path, " 应为 ", kind);
        }
    }
    let entries = match value {
        Json::Object(entries) => entries,
        _ => return Ok(()),
    };
    let ghost fields = entry_views(entries@);
    if let Some(Json::List(required)) = schema.get("required") {
        if let Some(name) = find_missing(required, value) {
            return wrong(path, " 缺少必填字段 ", name.as_str());
        }
    }
    let properties = match schema.get("properties") {
        Some(properties) => properties,
        None => return Ok(()),
    };
    if !matches!(properties, Json::Object(_)) {
        return Ok(());
    }
    let ghost known = properties@->Object_0;
    let strict = matches!(schema.get("additionalProperties"), Some(Json::Bool(false)));
    assert(strict == forbids_extra(schema@));
    let mut at: usize = 0;
    while at < entries.len()
        invariant
            at <= entries.len(),
            decreases_to!(value => entries@),
            fields == entry_views(entries@),
            properties@ == JsonView::Object(known),
            strict == forbids_extra(schema@),
            complaint(schema@, value@, path@) == fields_complaint(
                schema@,
                known,
                fields,
                at as int,
                path@,
            ),
        decreases entries.len() - at,
    {
        proof {
            lemma_entry_views(entries@);
            assert(fields[at as int] == (entries@[at as int].0@, entries@[at as int].1@));
        }
        let name = entries[at].0.as_str();
        match properties.get(name) {
            Some(child_schema) => {
                let mut child_path = path.to_owned();
                child_path.append(".");
                child_path.append(name);
                assert(decreases_to!(entries@ => entries@[at as int]));
                assert(decreases_to!(entries@[at as int] => entries@[at as int].1));
                let checked = validate_value(child_schema, &entries[at].1, child_path.as_str());
                if checked.is_err() {
                    return checked;
                }
            },
            None => {
                if strict {
                    return wrong(path, " 不允许额外字段 ", name);
                }
            },
        }
        at += 1;
    }
    proof {
        lemma_entry_views(entries@);
    }
    Ok(())
}

/// A field that a schema does not speak of never makes a value wrong, unless the
/// schema forbids such fields.
pub proof fn law_extra_fields_are_allowed_unless_forbidden(
    schema: JsonView,
    properties: Seq<(Seq<char>, JsonView)>,
    entries: Seq<(Seq<char>, JsonView)>,
    from: int,
    path: Seq<char>,
)
    requires
        0 <= from < entries.len(),
        entry(properties, entries[from].0) is None,
    ensures
        !forbids_extra(schema) ==> fields_complaint(schema, properties, entries, from, path)
            == fields_complaint(schema, properties, entries, from + 1, path),
        forbids_extra(schema) ==> fields_complaint(schema, properties, entries, from, path) == Some(
            path + " 不允许额外字段 "@ + entries[from].0,
        ),
{
}

/// A value that is wrong by no schema's type and is no object fits every schema.
pub proof fn law_schema_without_type_allows_plain_values(schema: JsonView, value: JsonView, path: Seq<char>)
    requires
        schema.field("type"@).text() is None,
        !(value is Object),
    ensures
        complaint(schema, value, path) is None,
{
}

/// The mathematical value of a registered tool.
pub struct ToolView {
    pub spec: ToolSpecView,
    pub read_only: bool,
}

/// A registered tool.
#[derive(Clone, Debug, PartialEq, Eq)]
pub struct ToolEntry {
    spec: ToolSpec,
    read_only: bool,
}

impl View for ToolEntry {
    type V = ToolView;

    closed spec fn view(&self) -> ToolView {
        ToolView { spec: self.spec@, read_only: self.read_only }
    }
}

/// Tools by their names.
impl Ranked for ToolSpecView {
    open spec fn before(&self, other: &ToolSpecView) -> bool {
        text_before(self.name, other.name)
    }
}

impl TotallyRanked for ToolSpecView {
    proof fn ranking_laws(a: &ToolSpecView, b: &ToolSpecView, c: &ToolSpecView) {
        lemma_text_before_total(a.name, b.name);
        lemma_text_before_total(b.name, c.name);
        lemma_text_before_total(a.name, c.name);
        if text_before(c.name, a.name) && text_before(a.name, b.name) {
            lemma_text_before_transitive(c.name, a.name, b.name);
        }
    }
}

impl Ranked for ToolSpec {
    open spec fn before(&self, other: &ToolSpec) -> bool {
        self@.before(&other@)
    }
}

impl Sortable for ToolSpec {
    fn is_before(&self, other: &ToolSpec) -> (before: bool) {
        proof {
            lemma_compared_views(*self, *other);
        }
        is_text_before(self.name.as_str(), other.name.as_str())
    }
}

/// The tools that there are. Each name stands for one tool.
#[derive(Clone, Debug, PartialEq, Eq)]
pub struct ToolRegistry {
    tools: Vec<ToolEntry>,
}

spec fn entry_list(tools: Seq<ToolEntry>) -> Seq<ToolView> {
    Seq::new(tools.len(), |i: int| tools[i]@)
}

impl View for ToolRegistry {
    type V = Seq<ToolView>;

    closed spec fn view(&self) -> Seq<ToolView> {
        entry_list(self.tools@)
    }
}

/// Where the tool with a name stands among some tools.
pub open spec fn tool_at(tools: Seq<ToolView>, name: Seq<char>, from: int) -> Option<int>
    decreases tools.len() - from,
{
    if from >= tools.len() {
        None
    } else if tools[from].spec.name == name {
        Some(from)
    } else {
        tool_at(tools, name, from + 1)
    }
}

/// The tool with a name.
pub open spec fn tool_named(tools: Seq<ToolView>, name: Seq<char>) -> Option<ToolView> {
    match tool_at(tools, name, 0) {
        Some(at) => Some(tools[at]),
        None => None,
    }
}

/// Some tools and one more, which takes the place of one with its name.
pub open spec fn registered(tools: Seq<ToolView>, tool: ToolView) -> Seq<ToolView> {
    match tool_at(tools, tool.spec.name, 0) {
        Some(at) => tools.update(at, tool),
        None => tools.push(tool),
    }
}

/// The first of some names that no tool has.
pub open spec fn unavailable(tools: Seq<ToolView>, names: Seq<Seq<char>>, from: int) -> Option<
    Seq<char>,
>
    decreases names.len() - from,
{
    if from >= names.len() {
        None
    } else if tool_named(tools, names[from]) is None {
        Some(names[from])
    } else {
        unavailable(tools, names, from + 1)
    }
}

/// The tools with the first `n` of some names.
pub open spec fn selected(tools: Seq<ToolView>, names: Seq<Seq<char>>, n: int) -> Seq<ToolView>
    decreases n,
{
    if n <= 0 {
        Seq::empty()
    } else {
        match tool_named(tools, names[n - 1]) {
            Some(tool) => registered(selected(tools, names, n - 1), tool),
            None => selected(tools, names, n - 1),
        }
    }
}

/// The views of some tool specifications.
pub open spec fn spec_views(specs: Seq<ToolSpec>) -> Seq<ToolSpecView> {
    Seq::new(specs.len(), |i: int| specs[i]@)
}

/// What the model is told of some tools.
pub open spec fn told(tools: Seq<ToolView>) -> Seq<ToolSpecView> {
    Seq::new(tools.len(), |i: int| tools[i].spec)
}

impl ToolRegistry {
    /// No tools.
    pub fn new() -> (out: ToolRegistry)
        ensures
            out@ == Seq::<ToolView>::empty(),
    {
        let out = ToolRegistry { tools: Vec::new() };
        assert(out@ =~= Seq::empty());
        out
    }

    /// A copy of the tools.
    pub fn copy(&self) -> (out: ToolRegistry)
        ensures
            out@ == self@,
    {
        let mut tools: Vec<ToolEntry> = Vec::new();
        let mut at: usize = 0;
        while at < self.tools.len()
            invariant
                at == tools.len(),
                at <= self.tools.len(),
                forall|i: int| 0 <= i < at ==> (#[trigger] tools@[i])@ == self.tools@[i]@,
            decreases self.tools.len() - at,
        {
            tools.push(
                ToolEntry { spec: self.tools[at].spec.copy(), read_only: self.tools[at].read_only },
            );
            at += 1;
        }
        let out = ToolRegistry { tools };
        assert(out@ =~= self@);
        out
    }

    fn find(&self, name: &str) -> (found: Option<usize>)
        ensures
            match found {
                Some(at) => tool_at(self@, name@, 0) == Some(at as int) && at < self@.len(),
                None => tool_at(self@, name@, 0) is None,
            },
    {
        let mut at: usize = 0;
        while at < self.tools.len()
            invariant
                at <= self.tools.len(),
                tool_at(self@, name@, 0) == tool_at(self@, name@, at as int),
            decreases self.tools.len() - at,
        {
            if same_text(self.tools[at].spec.name.as_str(), name) {
                return Some(at);
            }
            at += 1;
        }
        None
    }

    fn put(&mut self, tool: ToolEntry)
        ensures
            final(self)@ == registered(old(self)@, tool@),
    {
        let ghost before = self@;
        match self.find(tool.spec.name.as_str()) {
            Some(at) => {
                let removed = self.tools.remove(at);
                self.tools.insert(at, tool);
                assert(self@ =~= before.update(at as int, tool@));
            },
            None => {
                self.tools.push(tool);
                assert(self@ =~= before.push(tool@));
            },
        }
    }

    /// Adds a tool. It takes the place of one with its name.
    pub fn register<T: Tool>(&mut self, tool: &T)
        ensures
            final(self)@ == registered(
                old(self)@,
                ToolView { spec: tool.described(), read_only: tool.harmless() },
            ),
    {
        self.put(ToolEntry { spec: tool.spec(), read_only: tool.is_read_only() });
    }

    /// The tools with some names.
    pub fn subset(&self, names: &Vec<String>) -> (out: Result<ToolRegistry, ToolError>)
        ensures
            match unavailable(self@, texts(names@), 0) {
                Some(name) => out matches Err(ToolError::UnavailableTool(said)) && said@ == name,
                None => out matches Ok(tools) && tools@ == selected(
                    self@,
                    texts(names@),
                    names@.len() as int,
                ),
            },
    {
        let mut out = ToolRegistry::new();
        let mut at: usize = 0;
        while at < names.len()
            invariant
                at <= names.len(),
                unavailable(self@, texts(names@), 0) == unavailable(self@, texts(names@), at as int),
                out@ == selected(self@, texts(names@), at as int),
            decreases names.len() - at,
        {
            assert(texts(names@)[at as int] == names@[at as int]@);
            match self.find(names[at].as_str()) {
                Some(found) => {
                    let tool = ToolEntry {
                        spec: self.tools[found].spec.copy(),
                        read_only: self.tools[found].read_only,
                    };
                    assert(tool@ == self@[found as int]);
                    out.put(tool);
                },
                None => {
                    return Err(ToolError::UnavailableTool(names[at].clone()));
                },
            }
            at += 1;
        }
        Ok(out)
    }

    /// What the model is told of the tools, in the order of their names.
    pub fn specs(&self) -> (out: Vec<ToolSpec>)
        ensures
            spec_views(out@) == ranked(told(self@)),
    {
        let mut found: Vec<ToolSpec> = Vec::new();
        let mut at: usize = 0;
        while at < self.tools.len()
            invariant
                at == found.len(),
                at <= self.tools.len(),
                forall|i: int| 0 <= i < at ==> (#[trigger] found@[i])@ == self@[i].spec,
            decreases self.tools.len() - at,
        {
            found.push(self.tools[at].spec.copy());
            at += 1;
        }
        proof {
            lemma_ranked_views(found@);
            assert(views_of(found@) =~= told(self@));
            assert(spec_views(ranked(found@)) =~= views_of(ranked(found@)));
        }
        stable_sort(found)
    }

    /// Whether a tool may be called with some arguments: there is one with the
    /// name, and the arguments fit its schema.
    pub fn execute(&self, name: &str, args: &Json) -> (out: Result<(), ToolError>)
        ensures
            match tool_named(self@, name@) {
                Some(tool) => says(out, complaint(tool.spec.parameters, args@, "$args"@)),
                None => out matches Err(ToolError::UnknownTool(said)) && said@ == name@,
            },
    {
        match self.find(name) {
            Some(at) => validate_value(&self.tools[at].spec.parameters, args, "$args"),
            None => Err(ToolError::UnknownTool(name.to_owned())),
        }
    }

    /// Whether there is a tool with a name and calling it changes nothing.
    pub fn is_read_only(&self, name: &str) -> (read_only: bool)
        ensures
            read_only == (tool_named(self@, name@) matches Some(tool) && tool.read_only),
    {
        match self.find(name) {
            Some(at) => self.tools[at].read_only,
            None => false,
        }
    }
}

/// A tool that has just been registered is found under its name, and every other
/// name stands for what it stood for.
pub proof fn law_registered_tool_is_found(tools: Seq<ToolView>, tool: ToolView, name: Seq<char>)
    ensures
        tool_named(registered(tools, tool), tool.spec.name) == Some(tool),
        name != tool.spec.name ==> tool_named(registered(tools, tool), name) == tool_named(
            tools,
            name,
        ),
{
    lemma_tool_at(tools, tool.spec.name, 0);
    lemma_tool_at(tools, name, 0);
    let now = registered(tools, tool);
    match tool_at(tools, tool.spec.name, 0) {
        Some(at) => {
            lemma_tool_at_is(now, tool.spec.name, 0, at);
        },
        None => {
            lemma_tool_at_is(now, tool.spec.name, 0, tools.len() as int);
        },
    }
    if name != tool.spec.name {
        match tool_at(tools, name, 0) {
            Some(at) => {
                assert forall|i: int| 0 <= i < at implies (#[trigger] now[i]).spec.name != name by {
                    assert(tools[i].spec.name != name);
                }
                lemma_tool_at_is(now, name, 0, at);
            },
            None => {
                assert forall|i: int| 0 <= i < now.len() implies (#[trigger] now[i]).spec.name != name by {
                    if i < tools.len() {
                        assert(tools[i].spec.name != name);
                    }
                }
                lemma_tool_at_none(now, name, 0);
            },
        }
    }
}

proof fn lemma_tool_at(tools: Seq<ToolView>, name: Seq<char>, from: int)
    requires
        0 <= from,
    ensures
        match tool_at(tools, name, from) {
            Some(at) => from <= at < tools.len() && tools[at].spec.name == name && forall|i: int|
                from <= i < at ==> (#[trigger] tools[i]).spec.name != name,
            None => forall|i: int|
                from <= i < tools.len() ==> (#[trigger] tools[i]).spec.name != name,
        },
    decreases tools.len() - from,
{
    if from < tools.len() && tools[from].spec.name != name {
        lemma_tool_at(tools, name, from + 1);
    }
}

proof fn lemma_tool_at_is(tools: Seq<ToolView>, name: Seq<char>, from: int, at: int)
    requires
        0 <= from <= at < tools.len(),
        forall|i: int| from <= i < at ==> (#[trigger] tools[i]).spec.name != name,
        tools[at].spec.name == name,
    ensures
        tool_at(tools, name, from) == Some(at),
    decreases at - from,
{
    if from < at {
        assert(tools[from].spec.name != name);
        lemma_tool_at_is(tools, name, from + 1, at);
    }
}

proof fn lemma_tool_at_none(tools: Seq<ToolView>, name: Seq<char>, from: int)
    requires
        0 <= from <= tools.len(),
        forall|i: int| from <= i < tools.len() ==> (#[trigger] tools[i]).spec.name != name,
    ensures
        tool_at(tools, name, from) is None,
    decreases tools.len() - from,
{
    if from < tools.len() {
        assert(tools[from].spec.name != name);
        lemma_tool_at_none(tools, name, from + 1);
    }
}

/// A subset offers no tool that was not asked for by name.
pub proof fn law_subset_holds_only_what_was_asked_for(
    tools: Seq<ToolView>,
    names: Seq<Seq<char>>,
    n: int,
    i: int,
)
    requires
        0 <= n <= names.len(),
        0 <= i < selected(tools, names, n).len(),
    ensures
        exists|k: int| 0 <= k < n && #[trigger] names[k] == selected(tools, names, n)[i].spec.name,
    decreases n,
{
    let before = selected(tools, names, n - 1);
    lemma_tool_at(tools, names[n - 1], 0);
    match tool_named(tools, names[n - 1]) {
        Some(tool) => {
            lemma_tool_at(before, tool.spec.name, 0);
            let now = registered(before, tool);
            if now[i] == tool {
                assert(names[n - 1] == tool.spec.name);
            } else {
                law_subset_holds_only_what_was_asked_for(tools, names, n - 1, i);
            }
        },
        None => {
            law_subset_holds_only_what_was_asked_for(tools, names, n - 1, i);
        },
    }
}

/// The model is told of every tool once, in the order of the tools' names.
pub proof fn law_tools_are_told_by_name(tools: Seq<ToolView>, i: int, j: int)
    requires
        0 <= i < j < ranked(told(tools)).len(),
    ensures
        !text_before(ranked(told(tools))[j].name, ranked(told(tools))[i].name),
        ranked(told(tools)).to_multiset() == told(tools).to_multiset(),
{
    lemma_ranked_permutes(told(tools));
    lemma_ranked_in_order(told(tools));
    let list = ranked(told(tools));
    assert(!list[j].before(&list[i]));
}

/// A value that passes is of the kind that its schema names.
pub proof fn law_passing_values_are_of_their_kind(
    schema: JsonView,
    value: JsonView,
    path: Seq<char>,
)
    requires
        complaint(schema, value, path) is None,
    ensures
        schema.field("type"@) == JsonView::Text("object"@) ==> value is Object,
        schema.field("type"@) == JsonView::Text("array"@) ==> value is List,
        schema.field("type"@) == JsonView::Text("string"@) ==> value is Text,
        schema.field("type"@) == JsonView::Text("number"@) ==> value is Unsigned
            || value is Negative || value is Other,
        schema.field("type"@) == JsonView::Text("integer"@) ==> value is Unsigned
            || value is Negative,
        schema.field("type"@) == JsonView::Text("boolean"@) ==> value is Bool,
        schema.field("type"@) == JsonView::Text("null"@) ==> value is Null,
{
    lemma_kinds_differ();
}

proof fn lemma_kinds_differ()
    ensures
        "array"@ != "object"@,
        "string"@ != "object"@,
        "string"@ != "array"@,
        "number"@ != "object"@,
        "number"@ != "array"@,
        "number"@ != "string"@,
        "integer"@ != "object"@,
        "integer"@ != "array"@,
        "integer"@ != "string"@,
        "integer"@ != "number"@,
        "boolean"@ != "object"@,
        "boolean"@ != "array"@,
        "boolean"@ != "string"@,
        "boolean"@ != "number"@,
        "boolean"@ != "integer"@,
        "null"@ != "object"@,
        "null"@ != "array"@,
        "null"@ != "string"@,
        "null"@ != "number"@,
        "null"@ != "integer"@,
        "null"@ != "boolean"@,
{
    reveal_strlit("object");
    reveal_strlit("array");
    reveal_strlit("string");
    reveal_strlit("number");
    reveal_strlit("integer");
    reveal_strlit("boolean");
    reveal_strlit("null");
    assert("object"@[0] == 'o' && "array"@[0] == 'a' && "string"@[0] == 's' && "number"@[0] == 'n');
    assert("integer"@[0] == 'i' && "boolean"@[0] == 'b' && "null"@[0] == 'n');
    assert("number"@.len() == 6 && "null"@.len() == 4);
}

/// A value of another kind than its schema names is refused, with its place and the kind.
pub proof fn law_values_of_another_kind_are_refused(
    schema: JsonView,
    value: JsonView,
    path: Seq<char>,
)
    ensures
        schema.field("type"@) == JsonView::Text("object"@) && !(value is Object) ==> complaint(
            schema,
            value,
            path,
        ) == Some(path + " 应为 "@ + "object"@),
        schema.field("type"@) == JsonView::Text("array"@) && !(value is List) ==> complaint(
            schema,
            value,
            path,
        ) == Some(path + " 应为 "@ + "array"@),
        schema.field("type"@) == JsonView::Text("string"@) && !(value is Text) ==> complaint(
            schema,
            value,
            path,
        ) == Some(path + " 应为 "@ + "string"@),
        schema.field("type"@) == JsonView::Text("boolean"@) && !(value is Bool) ==> complaint(
            schema,
            value,
            path,
        ) == Some(path + " 应为 "@ + "boolean"@),
        schema.field("type"@) == JsonView::Text("integer"@) && !(value is Unsigned
            || value is Negative) ==> complaint(schema, value, path) == Some(
            path + " 应为 "@ + "integer"@,
        ),
{
    lemma_kinds_differ();
}

/// An object that passes has every field that its schema requires.
pub proof fn law_passing_objects_have_all_required_fields(
    schema: JsonView,
    entries: Seq<(Seq<char>, JsonView)>,
    path: Seq<char>,
    required: Seq<JsonView>,
    i: int,
)
    requires
        complaint(schema, JsonView::Object(entries), path) is None,
        schema.field("required"@) == JsonView::List(required),
        0 <= i < required.len(),
        required[i] is Text,
    ensures
        exists|k: int| 0 <= k < entries.len() && (#[trigger] entries[k]).0 == required[i]->Text_0,
{
    lemma_nothing_missing(required, entries, 0, i);
    crate::json::law_object_has_the_keys_of_its_entries(entries, required[i]->Text_0);
}

proof fn lemma_nothing_missing(
    required: Seq<JsonView>,
    entries: Seq<(Seq<char>, JsonView)>,
    from: int,
    i: int,
)
    requires
        missing_field(required, entries, from) is None,
        0 <= from <= i < required.len(),
        required[i] is Text,
    ensures
        entry(entries, required[i]->Text_0) is Some,
    decreases required.len() - from,
{
    if from < i {
        lemma_nothing_missing(required, entries, from + 1, i);
    }
}

/// The first required field that an object does not have is named, where the object is of
/// the right kind.
pub proof fn law_the_first_missing_field_is_named(
    schema: JsonView,
    entries: Seq<(Seq<char>, JsonView)>,
    path: Seq<char>,
    required: Seq<JsonView>,
    i: int,
)
    requires
        schema.field("type"@) == JsonView::Text("object"@) || !(schema.field("type"@) is Text),
        schema.field("required"@) == JsonView::List(required),
        0 <= i < required.len(),
        required[i] is Text,
        forall|k: int| 0 <= k < entries.len() ==> (#[trigger] entries[k]).0 != required[i]->Text_0,
        forall|j: int|
            0 <= j < i && required[j] is Text ==> exists|k: int|
                0 <= k < entries.len() && (#[trigger] entries[k]).0 == (
                #[trigger] required[j])->Text_0,
    ensures
        complaint(schema, JsonView::Object(entries), path) == Some(
            path + " 缺少必填字段 "@ + required[i]->Text_0,
        ),
{
    lemma_kinds_differ();
    lemma_missing_is(required, entries, 0, i);
}

proof fn lemma_missing_is(
    required: Seq<JsonView>,
    entries: Seq<(Seq<char>, JsonView)>,
    from: int,
    i: int,
)
    requires
        0 <= from <= i < required.len(),
        required[i] is Text,
        forall|k: int| 0 <= k < entries.len() ==> (#[trigger] entries[k]).0 != required[i]->Text_0,
        forall|j: int|
            0 <= j < i && required[j] is Text ==> exists|k: int|
                0 <= k < entries.len() && (#[trigger] entries[k]).0 == (
                #[trigger] required[j])->Text_0,
    ensures
        missing_field(required, entries, from) == Some(required[i]->Text_0),
    decreases i - from,
{
    if from < i {
        if let JsonView::Text(name) = required[from] {
            crate::json::law_object_has_the_keys_of_its_entries(entries, name);
        }
        lemma_missing_is(required, entries, from + 1, i);
    } else {
        crate::json::law_object_has_the_keys_of_its_entries(entries, required[i]->Text_0);
    }
}

/// In an object that passes every field fits the schema that stands for it among the
/// properties, and a field for which none stands is there only where the schema does not
/// forbid it.
pub proof fn law_passing_fields_fit_their_schemas(
    schema: JsonView,
    entries: Seq<(Seq<char>, JsonView)>,
    path: Seq<char>,
    properties: Seq<(Seq<char>, JsonView)>,
    k: int,
)
    requires
        complaint(schema, JsonView::Object(entries), path) is None,
        schema.field("properties"@) == JsonView::Object(properties),
        0 <= k < entries.len(),
    ensures
        match JsonView::Object(properties).get(entries[k].0) {
            Some(child) => complaint(child, entries[k].1, path + "."@ + entries[k].0) is None,
            None => schema.get("additionalProperties"@) != Some(JsonView::Bool(false)),
        },
{
    lemma_no_field_complaint(schema, properties, entries, path, 0, k);
}

proof fn lemma_no_field_complaint(
    schema: JsonView,
    properties: Seq<(Seq<char>, JsonView)>,
    entries: Seq<(Seq<char>, JsonView)>,
    path: Seq<char>,
    from: int,
    k: int,
)
    requires
        fields_complaint(schema, properties, entries, from, path) is None,
        0 <= from <= k < entries.len(),
    ensures
        match entry(properties, entries[k].0) {
            Some(child) => complaint(child, entries[k].1, path + "."@ + entries[k].0) is None,
            None => !forbids_extra(schema),
        },
    decreases k - from,
{
    if from < k {
        lemma_no_field_complaint(schema, properties, entries, path, from + 1, k);
    }
}

/// An object is let through that is of the right kind, has all required fields, and whose
/// fields all fit: nothing else is asked of it.
pub proof fn law_fitting_objects_pass(
    schema: JsonView,
    entries: Seq<(Seq<char>, JsonView)>,
    path: Seq<char>,
)
    requires
        schema.field("type"@) == JsonView::Text("object"@) || !(schema.field("type"@) is Text),
        schema.field("required"@) matches JsonView::List(required) ==> forall|i: int|
            0 <= i < required.len() && (#[trigger] required[i]) is Text ==> JsonView::Object(
                entries,
            ).get(required[i]->Text_0) is Some,
        schema.field("properties"@) matches JsonView::Object(properties) ==> forall|k: int|
            0 <= k < entries.len() ==> match JsonView::Object(properties).get(
                (#[trigger] entries[k]).0,
            ) {
                Some(child) => complaint(child, entries[k].1, path + "."@ + entries[k].0) is None,
                None => schema.get("additionalProperties"@) != Some(JsonView::Bool(false)),
            },
    ensures
        complaint(schema, JsonView::Object(entries), path) is None,
{
    lemma_kinds_differ();
    if let JsonView::List(required) = schema.field("required"@) {
        lemma_all_there(required, entries, 0);
    }
    if let JsonView::Object(properties) = schema.field("properties"@) {
        lemma_all_fit(schema, properties, entries, path, 0);
    }
}

proof fn lemma_all_there(required: Seq<JsonView>, entries: Seq<(Seq<char>, JsonView)>, from: int)
    requires
        0 <= from,
        forall|i: int|
            0 <= i < required.len() && (#[trigger] required[i]) is Text ==> JsonView::Object(
                entries,
            ).get(required[i]->Text_0) is Some,
    ensures
        missing_field(required, entries, from) is None,
    decreases required.len() - from,
{
    if from < required.len() {
        assert(required[from] is Text ==> entry(entries, required[from]->Text_0) is Some);
        lemma_all_there(required, entries, from + 1);
    }
}

proof fn lemma_all_fit(
    schema: JsonView,
    properties: Seq<(Seq<char>, JsonView)>,
    entries: Seq<(Seq<char>, JsonView)>,
    path: Seq<char>,
    from: int,
)
    requires
        0 <= from,
        forall|k: int|
            0 <= k < entries.len() ==> match JsonView::Object(properties).get(
                (#[trigger] entries[k]).0,
            ) {
                Some(child) => complaint(child, entries[k].1, path + "."@ + entries[k].0) is None,
                None => schema.get("additionalProperties"@) != Some(JsonView::Bool(false)),
            },
    ensures
        fields_complaint(schema, properties, entries, from, path) is None,
    decreases entries.len() - from,
{
    if from < entries.len() {
        assert(entries[from].0 == entries[from].0);
        lemma_all_fit(schema, properties, entries, path, from + 1);
    }
}

/// A value that is no object passes where its schema names its kind.
pub proof fn law_plain_values_of_their_kind_pass(
    schema: JsonView,
    value: JsonView,
    path: Seq<char>,
)
    requires
        !(value is Object),
        ({
            ||| schema.field("type"@) == JsonView::Text("array"@) && value is List
            ||| schema.field("type"@) == JsonView::Text("string"@) && value is Text
            ||| schema.field("type"@) == JsonView::Text("number"@) && (value is Unsigned
                || value is Negative || value is Other)
            ||| schema.field("type"@) == JsonView::Text("integer"@) && (value is Unsigned
                || value is Negative)
            ||| schema.field("type"@) == JsonView::Text("boolean"@) && value is Bool
            ||| schema.field("type"@) == JsonView::Text("null"@) && value is Null
        }),
    ensures
        complaint(schema, value, path) is None,
{
    lemma_kinds_differ();
}

/// A name stands for a tool that has it, wherever there is one.
pub proof fn law_tools_are_found_by_name(tools: Seq<ToolView>, name: Seq<char>)
    ensures
        match tool_named(tools, name) {
            Some(tool) => tools.contains(tool) && tool.spec.name == name,
            None => forall|i: int|
                0 <= i < tools.len() ==> (#[trigger] tools[i]).spec.name != name,
        },
{
    lemma_tool_at(tools, name, 0);
}

/// A subset can be had exactly where there is a tool for every name; else the first name
/// without one is told.
pub proof fn law_subset_needs_every_tool(tools: Seq<ToolView>, names: Seq<Seq<char>>)
    ensures
        unavailable(tools, names, 0) is None <==> forall|i: int|
            0 <= i < names.len() ==> tool_named(tools, #[trigger] names[i]) is Some,
        unavailable(tools, names, 0) matches Some(name) ==> exists|i: int|
            0 <= i < names.len() && #[trigger] names[i] == name && tool_named(tools, name) is None
                && forall|k: int| 0 <= k < i ==> tool_named(tools, #[trigger] names[k]) is Some,
{
    lemma_unavailable_from(tools, names, 0);
}

proof fn lemma_unavailable_from(tools: Seq<ToolView>, names: Seq<Seq<char>>, from: int)
    requires
        0 <= from <= names.len(),
        forall|k: int| 0 <= k < from ==> tool_named(tools, #[trigger] names[k]) is Some,
    ensures
        match unavailable(tools, names, from) {
            None => forall|i: int|
                0 <= i < names.len() ==> tool_named(tools, #[trigger] names[i]) is Some,
            Some(name) => exists|i: int|
                0 <= i < names.len() && #[trigger] names[i] == name && tool_named(
                    tools,
                    name,
                ) is None && forall|k: int|
                    0 <= k < i ==> tool_named(tools, #[trigger] names[k]) is Some,
        },
    decreases names.len() - from,
{
    if from < names.len() {
        if tool_named(tools, names[from]) is Some {
            lemma_unavailable_from(tools, names, from + 1);
        } else {
            assert(names[from] == names[from]);
        }
    }
}

/// In a subset every name that was asked for stands for the tool that it stood for.
pub proof fn law_subset_holds_all_that_was_asked_for(
    tools: Seq<ToolView>,
    names: Seq<Seq<char>>,
    n: int,
    i: int,
)
    requires
        0 <= i < n <= names.len(),
    ensures
        tool_named(selected(tools, names, n), names[i]) == tool_named(tools, names[i]) || tool_named(
            tools,
            names[i],
        ) is None,
    decreases n,
{
    let before = selected(tools, names, n - 1);
    if i < n - 1 {
        law_subset_holds_all_that_was_asked_for(tools, names, n - 1, i);
    }
    law_tools_are_found_by_name(tools, names[n - 1]);
    if let Some(tool) = tool_named(tools, names[n - 1]) {
        law_registered_tool_is_found(before, tool, names[i]);
        if names[i] == names[n - 1] {
            assert(tool.spec.name == names[i]);
        }
    }
}

/// A tool that is registered takes one place, and every other tool keeps its own.
pub proof fn law_registering_keeps_the_other_tools(tools: Seq<ToolView>, tool: ToolView, i: int)
    requires
        0 <= i < tools.len(),
        tools[i].spec.name != tool.spec.name,
    ensures
        registered(tools, tool)[i] == tools[i],
        tools.len() <= registered(tools, tool).len() <= tools.len() + 1,
        registered(tools, tool).contains(tool),
{
    lemma_tool_at(tools, tool.spec.name, 0);
    match tool_at(tools, tool.spec.name, 0) {
        Some(at) => {
            assert(registered(tools, tool)[at] == tool);
        },
        None => {
            assert(registered(tools, tool)[tools.len() as int] == tool);
        },
    }
}

/// The model is told of every tool what it is registered with.
pub proof fn law_model_is_told_of_every_tool(tools: Seq<ToolView>, i: int)
    requires
        0 <= i < tools.len(),
    ensures
        told(tools).len() == tools.len(),
        told(tools)[i] == tools[i].spec,
{
}

/// Where the check of a value lets an object through, every text that the schema lists as
/// required is a key of the object.
pub proof fn law_checked_objects_have_all_required_fields(
    schema: &Json,
    value: &Json,
    path: &str,
    out: Result<(), ToolError>,
    required: Seq<JsonView>,
    entries: Seq<(Seq<char>, JsonView)>,
)
    requires
        call_ensures(validate_value, (schema, value, path), out),
        out is Ok,
        schema@.field("required"@) == JsonView::List(required),
        value@ == JsonView::Object(entries),
    ensures
        forall|i: int|
            0 <= i < required.len() && (#[trigger] required[i]) is Text ==> exists|k: int|
                0 <= k < entries.len() && (#[trigger] entries[k]).0 == required[i]->Text_0,
{
    assert forall|i: int| 0 <= i < required.len() && (#[trigger] required[i]) is Text implies exists|
        k: int,
    |
        0 <= k < entries.len() && (#[trigger] entries[k]).0 == required[i]->Text_0 by {
        law_passing_objects_have_all_required_fields(schema@, entries, path@, required, i);
    }
}

/// A call goes through exactly where a tool has the name and the arguments pass its schema;
/// a name that no tool has is told as unknown.
pub proof fn law_only_known_tools_are_called(
    registry: &ToolRegistry,
    name: &str,
    args: &Json,
    out: Result<(), ToolError>,
    i: int,
)
    requires
        call_ensures(ToolRegistry::execute, (registry, name, args), out),
    ensures
        out is Ok ==> exists|k: int|
            0 <= k < registry@.len() && (#[trigger] registry@[k]).spec.name == name@ && complaint(
                registry@[k].spec.parameters,
                args@,
                "$args"@,
            ) is None,
        (forall|k: int| 0 <= k < registry@.len() ==> (#[trigger] registry@[k]).spec.name != name@)
            ==> (out matches Err(ToolError::UnknownTool(said)) && said@ == name@),
{
    law_tools_are_found_by_name(registry@, name@);
    lemma_tool_at(registry@, name@, 0);
}

/// A tool counts as harmless only where it is there and says so.
pub proof fn law_only_read_only_tools_are_harmless(
    registry: &ToolRegistry,
    name: &str,
    harmless: bool,
)
    requires
        call_ensures(ToolRegistry::is_read_only, (registry, name), harmless),
        harmless,
    ensures
        exists|k: int|
            0 <= k < registry@.len() && (#[trigger] registry@[k]).spec.name == name@
                && registry@[k].read_only,
{
    lemma_tool_at(registry@, name@, 0);
}

/// A kind that is not known, or none at all, asks nothing of a value that is no object.
pub proof fn law_unknown_kinds_ask_nothing(schema: JsonView, value: JsonView, path: Seq<char>)
    requires
        !(value is Object),
        schema.field("type"@) matches JsonView::Text(kind) ==> kind != "object"@ && kind
            != "array"@ && kind != "string"@ && kind != "number"@ && kind != "integer"@ && kind
            != "boolean"@ && kind != "null"@,
    ensures
        complaint(schema, value, path) is None,
{
}

/// Where a schema requires no fields, the first field of an object that does not fit is
/// complained of, under its path; one that is not allowed is told as such.
pub proof fn law_first_wrong_field_is_told(
    schema: JsonView,
    entries: Seq<(Seq<char>, JsonView)>,
    path: Seq<char>,
    properties: Seq<(Seq<char>, JsonView)>,
    k: int,
)
    requires
        schema.field("type"@) == JsonView::Text("object"@) || !(schema.field("type"@) is Text),
        !(schema.field("required"@) is List),
        schema.field("properties"@) == JsonView::Object(properties),
        0 <= k < entries.len(),
        forall|j: int|
            0 <= j < k ==> match JsonView::Object(properties).get((#[trigger] entries[j]).0) {
                Some(child) => complaint(child, entries[j].1, path + "."@ + entries[j].0) is None,
                None => schema.get("additionalProperties"@) != Some(JsonView::Bool(false)),
            },
    ensures
        match JsonView::Object(properties).get(entries[k].0) {
            Some(child) => complaint(
                child,
                entries[k].1,
                path + "."@ + entries[k].0,
            ) is Some ==> complaint(schema, JsonView::Object(entries), path) == complaint(
                child,
                entries[k].1,
                path + "."@ + entries[k].0,
            ),
            None => schema.get("additionalProperties"@) == Some(JsonView::Bool(false))
                ==> complaint(schema, JsonView::Object(entries), path) == Some(
                path + " 不允许额外字段 "@ + entries[k].0,
            ),
        },
{
    lemma_kinds_differ();
    lemma_fields_from(schema, properties, entries, path, 0, k);
}

proof fn lemma_fields_from(
    schema: JsonView,
    properties: Seq<(Seq<char>, JsonView)>,
    entries: Seq<(Seq<char>, JsonView)>,
    path: Seq<char>,
    from: int,
    k: int,
)
    requires
        0 <= from <= k < entries.len(),
        forall|j: int|
            0 <= j < k ==> match JsonView::Object(properties).get((#[trigger] entries[j]).0) {
                Some(child) => complaint(child, entries[j].1, path + "."@ + entries[j].0) is None,
                None => schema.get("additionalProperties"@) != Some(JsonView::Bool(false)),
            },
    ensures
        fields_complaint(schema, properties, entries, from, path) == fields_complaint(
            schema,
            properties,
            entries,
            k,
            path,
        ),
    decreases k - from,
{
    if from < k {
        assert(entries[from].0 == entries[from].0);
        lemma_fields_from(schema, properties, entries, path, from + 1, k);
    }
}

} // verus!

//! The tool that runs a shell command.
use vstd::prelude::*;

use super::{
    complaint, law_fitting_objects_pass, law_plain_values_of_their_kind_pass,
    law_the_first_missing_field_is_named, Tool,
};
use crate::json::{
    law_nothing_stands_under_a_missing_key, law_objects_give_the_first_entry_of_a_key, no_entries,
    text_list, text_list_value, Entries, Json, JsonView,
};
use crate::number::{decimal, decimal_text, signed_decimal, signed_text};
use crate::outside::{lossy_text, text_from_utf8_lossy};
use crate::provider::{ToolSpec, ToolSpecView};
use crate::text::texts;

verus! {

/// How many bytes of each output stream the model is shown.
pub const MAX_OUTPUT_BYTES: usize = 65536;

/// A schema for a value of a kind, with what it is for.
pub open spec fn described_kind(kind: Seq<char>, description: Seq<char>) -> JsonView {
    JsonView::Object(
        seq![("type"@, JsonView::Text(kind)), ("description"@, JsonView::Text(description))],
    )
}

/// A schema for a value of a kind, with what it is for.
pub fn described_kind_value(kind: &str, description: &str) -> (value: Json)
    ensures
        value@ == described_kind(kind@, description@),
{
    let value = Entries::new().with_text("type", kind).with_text("description", description).object();
    assert(value@->Object_0 =~= described_kind(kind@, description@)->Object_0);
    value
}

/// A schema for an object with some properties, of which some are asked for.
pub open spec fn object_schema(
    properties: Seq<(Seq<char>, JsonView)>,
    required: Seq<Seq<char>>,
) -> Seq<(Seq<char>, JsonView)> {
    seq![
        ("type"@, JsonView::Text("object"@)),
        ("properties"@, JsonView::Object(properties)),
        ("required"@, text_list(required)),
    ]
}

/// A schema for an object with some properties, of which some are asked for.
pub fn object_schema_entries(properties: Entries, required: &Vec<String>) -> (entries: Entries)
    ensures
        entries@ == object_schema(properties@, texts(required@)),
{
    let entries = Entries::new().with_text("type", "object").with(
        "properties",
        properties.object(),
    ).with("required", text_list_value(required));
    assert(entries@ =~= object_schema(properties@, texts(required@)));
    entries
}

/// One name.
pub fn name_list(name: &str) -> (list: Vec<String>)
    ensures
        texts(list@) == seq![name@],
{
    let mut list: Vec<String> = Vec::new();
    list.push(name.to_owned());
    assert(texts(list@) =~= seq![name@]);
    list
}

/// What the model is shown of an output stream.
pub open spec fn shown_output(bytes: Seq<u8>) -> Seq<char> {
    if bytes.len() <= MAX_OUTPUT_BYTES {
        lossy_text(bytes)
    } else {
        lossy_text(bytes.take(MAX_OUTPUT_BYTES as int)) + "\n...[输出已截断，原始大小 "@ + decimal(
            bytes.len(),
        ) + " 字节]"@
    }
}

/// What the model is shown of an output stream.
pub fn limited_lossy(bytes: &Vec<u8>) -> (text: String)
    ensures
        text@ == shown_output(bytes@),
{
    if bytes.len() <= MAX_OUTPUT_BYTES {
        return text_from_utf8_lossy(bytes.as_slice());
    }
    let front = vstd::slice::slice_subrange(bytes.as_slice(), 0, MAX_OUTPUT_BYTES);
    assert(front@ =~= bytes@.take(MAX_OUTPUT_BYTES as int));
    let mut text = text_from_utf8_lossy(front);
    text.append("\n...[输出已截断，原始大小 ");
    text.append(decimal_text(bytes.len() as u128).as_str());
    text.append(" 字节]");
    text
}

/// The tool that runs a shell command.
#[derive(Clone, Copy, Debug, PartialEq, Eq)]
pub struct ExecTool;

impl ExecTool {
    /// The tool.
    pub fn new() -> (tool: ExecTool)
        ensures
            tool == ExecTool,
    {
        ExecTool
    }

    /// What the model is told of a command that has run. A command that a signal
    /// ended has no exit code.
    pub fn report(&self, exit_code: Option<i32>, stdout: &Vec<u8>, stderr: &Vec<u8>) -> (text: String)
        ensures
            text@ == "exit_code: "@ + signed_decimal(
                match exit_code {
                    Some(code) => code as int,
                    None => -1int,
                },
            ) + "\nstdout:\n"@ + shown_output(stdout@) + "\nstderr:\n"@ + shown_output(stderr@),
    {
        let code = match exit_code {
            Some(code) => code as i64,
            None => -1,
        };
        let mut text = "exit_code: ".to_owned();
        text.append(signed_text(code).as_str());
        text.append("\nstdout:\n");
        text.append(limited_lossy(stdout).as_str());
        text.append("\nstderr:\n");
        text.append(limited_lossy(stderr).as_str());
        text
    }
}

impl Tool for ExecTool {
    open spec fn described(&self) -> ToolSpecView {
        ToolSpecView {
            name: "exec"@,
            description: "在当前工作目录执行一条 shell 命令，返回退出码、stdout 与 stderr"@,
            parameters: JsonView::Object(
                object_schema(
                    no_entries().push(
                        ("command"@, described_kind("string"@, "要执行的 shell 命令"@)),
                    ),
                    seq!["command"@],
                ),
            ),
        }
    }

    open spec fn harmless(&self) -> bool {
        false
    }

    fn spec(&self) -> (out: ToolSpec) {
        let properties = Entries::new().with(
            "command",
            described_kind_value("string", "要执行的 shell 命令"),
        );
        ToolSpec {
            name: "exec".to_owned(),
            description: "在当前工作目录执行一条 shell 命令，返回退出码、stdout 与 stderr".to_owned(),
            parameters: object_schema_entries(properties, &name_list("command")).object(),
        }
    }

    fn is_read_only(&self) -> (read_only: bool) {
        false
    }
}

/// Output that is within the limit is shown whole.
pub proof fn law_short_output_is_shown_whole(bytes: Seq<u8>)
    requires
        bytes.len() <= MAX_OUTPUT_BYTES,
    ensures
        shown_output(bytes) == lossy_text(bytes),
{
}

/// Output of more than sixty-four kilobytes is cut off behind them, and its size is told.
pub proof fn law_long_output_is_cut_off(bytes: Seq<u8>)
    ensures
        bytes.len() <= 65536 ==> shown_output(bytes) == lossy_text(bytes),
        bytes.len() > 65536 ==> shown_output(bytes) == lossy_text(bytes.take(65536))
            + "\n...[输出已截断，原始大小 "@ + decimal(bytes.len()) + " 字节]"@,
{
}

/// What a command gave is told with its exit code and both its streams, each in full where it
/// is short.
pub proof fn law_report_tells_code_and_streams(
    tool: &ExecTool,
    exit_code: Option<i32>,
    stdout: &Vec<u8>,
    stderr: &Vec<u8>,
    text: String,
)
    requires
        call_ensures(ExecTool::report, (tool, exit_code, stdout, stderr), text),
        stdout@.len() <= 65536,
        stderr@.len() <= 65536,
    ensures
        exit_code matches Some(code) ==> text@ == "exit_code: "@ + signed_decimal(code as int)
            + "\nstdout:\n"@ + lossy_text(stdout@) + "\nstderr:\n"@ + lossy_text(stderr@),
        exit_code is None ==> text@ == "exit_code: "@ + signed_decimal(-1) + "\nstdout:\n"@
            + lossy_text(stdout@) + "\nstderr:\n"@ + lossy_text(stderr@),
{
}

/// What a schema for an object says: its kind, its properties, what is required, and whether
/// other fields are forbidden.
pub proof fn law_schema_says_what_it_was_made_of(
    properties: Seq<(Seq<char>, JsonView)>,
    required: Seq<Seq<char>>,
    kind: Seq<char>,
    description: Seq<char>,
)
    ensures
        ({
            let plain = JsonView::Object(object_schema(properties, required));
            let closed = JsonView::Object(
                object_schema(properties, required).push(
                    ("additionalProperties"@, JsonView::Bool(false)),
                ),
            );
            &&& plain.field("type"@) == JsonView::Text("object"@)
            &&& plain.field("properties"@) == JsonView::Object(properties)
            &&& plain.field("required"@) == text_list(required)
            &&& plain.get("additionalProperties"@) is None
            &&& closed.field("type"@) == JsonView::Text("object"@)
            &&& closed.field("properties"@) == JsonView::Object(properties)
            &&& closed.field("required"@) == text_list(required)
            &&& closed.get("additionalProperties"@) == Some(JsonView::Bool(false))
        }),
        described_kind(kind, description).field("type"@) == JsonView::Text(kind),
        described_kind(kind, description).field("description"@) == JsonView::Text(description),
{
    reveal_strlit("type");
    reveal_strlit("properties");
    reveal_strlit("required");
    reveal_strlit("description");
    reveal_strlit("additionalProperties");
    assert("type"@.len() == 4 && "properties"@.len() == 10 && "required"@.len() == 8
        && "description"@.len() == 11 && "additionalProperties"@.len() == 20);
    let plain = object_schema(properties, required);
    let closed = plain.push(("additionalProperties"@, JsonView::Bool(false)));
    law_objects_give_the_first_entry_of_a_key(plain, "type"@, 0);
    law_objects_give_the_first_entry_of_a_key(plain, "properties"@, 1);
    law_objects_give_the_first_entry_of_a_key(plain, "required"@, 2);
    law_nothing_stands_under_a_missing_key(JsonView::Object(plain), "additionalProperties"@);
    law_objects_give_the_first_entry_of_a_key(closed, "type"@, 0);
    law_objects_give_the_first_entry_of_a_key(closed, "properties"@, 1);
    law_objects_give_the_first_entry_of_a_key(closed, "required"@, 2);
    law_objects_give_the_first_entry_of_a_key(closed, "additionalProperties"@, 3);
    if let JsonView::Object(entries) = described_kind(kind, description) {
        law_objects_give_the_first_entry_of_a_key(entries, "type"@, 0);
        law_objects_give_the_first_entry_of_a_key(entries, "description"@, 1);
    }
}

/// Arguments without a text that a schema asks for are refused; with that text alone they
/// pass.
pub proof fn law_schema_asks_for_its_text(
    schema: JsonView,
    properties: Seq<(Seq<char>, JsonView)>,
    name: Seq<char>,
    description: Seq<char>,
    entries: Seq<(Seq<char>, JsonView)>,
    value: Seq<char>,
    path: Seq<char>,
)
    requires
        schema.field("type"@) == JsonView::Text("object"@),
        schema.field("properties"@) == JsonView::Object(properties),
        schema.field("required"@) == text_list(seq![name]),
        JsonView::Object(properties).get(name) == Some(described_kind("string"@, description)),
    ensures
        (forall|k: int| 0 <= k < entries.len() ==> (#[trigger] entries[k]).0 != name) ==> complaint(
            schema,
            JsonView::Object(entries),
            path,
        ) == Some(path + " 缺少必填字段 "@ + name),
        complaint(schema, JsonView::Object(seq![(name, JsonView::Text(value))]), path) is None,
{
    let required = Seq::new(1, |i: int| JsonView::Text(seq![name][i]));
    assert(schema.field("required"@) == JsonView::List(required));
    assert(required[0] == JsonView::Text(name));
    if forall|k: int| 0 <= k < entries.len() ==> (#[trigger] entries[k]).0 != name {
        law_the_first_missing_field_is_named(schema, entries, path, required, 0);
    }
    let given = seq![(name, JsonView::Text(value))];
    law_objects_give_the_first_entry_of_a_key(given, name, 0);
    law_schema_says_what_it_was_made_of(properties, seq![name], "string"@, description);
    law_plain_values_of_their_kind_pass(
        described_kind("string"@, description),
        JsonView::Text(value),
        path + "."@ + name,
    );
    assert forall|k: int| 0 <= k < given.len() implies match JsonView::Object(properties).get(
        (#[trigger] given[k]).0,
    ) {
        Some(child) => complaint(child, given[k].1, path + "."@ + given[k].0) is None,
        None => schema.get("additionalProperties"@) != Some(JsonView::Bool(false)),
    } by {}
    law_fitting_objects_pass(schema, given, path);
}

/// A command is run only where one is given, and any text is a command.
pub proof fn law_exec_needs_a_command(
    entries: Seq<(Seq<char>, JsonView)>,
    command: Seq<char>,
    path: Seq<char>,
)
    ensures
        ({
            let schema = ExecTool.described().parameters;
            &&& (forall|k: int| 0 <= k < entries.len() ==> (#[trigger] entries[k]).0 != "command"@)
                ==> complaint(schema, JsonView::Object(entries), path) == Some(
                path + " 缺少必填字段 "@ + "command"@,
            )
            &&& complaint(
                schema,
                JsonView::Object(seq![("command"@, JsonView::Text(command))]),
                path,
            ) is None
            &&& !ExecTool.harmless()
        }),
{
    let properties = no_entries().push(
        ("command"@, described_kind("string"@, "要执行的 shell 命令"@)),
    );
    law_schema_says_what_it_was_made_of(properties, seq!["command"@], "string"@, "string"@);
    law_objects_give_the_first_entry_of_a_key(properties, "command"@, 0);
    law_schema_asks_for_its_text(
        ExecTool.described().parameters,
        properties,
        "command"@,
        "要执行的 shell 命令"@,
        entries,
        command,
        path,
    );
}

} // verus!

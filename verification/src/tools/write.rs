//! The tool that writes a file.
use vstd::prelude::*;

use super::exec::{
    described_kind, described_kind_value, law_schema_says_what_it_was_made_of, object_schema,
    object_schema_entries,
};
use super::{complaint, law_the_first_missing_field_is_named, Tool};
use crate::json::{no_entries, Entries, JsonView};
use crate::provider::{ToolSpec, ToolSpecView};
use crate::text::texts;

verus! {

/// The tool that writes a file.
#[derive(Clone, Copy, Debug, PartialEq, Eq)]
pub struct WriteFileTool;

impl WriteFileTool {
    /// The tool.
    pub fn new() -> (tool: WriteFileTool)
        ensures
            tool == WriteFileTool,
    {
        WriteFileTool
    }

    /// What the model is told of a file that has been written.
    pub fn report(&self, path: &str) -> (text: String)
        ensures
            text@ == "已写入 "@ + path@,
    {
        let mut text = "已写入 ".to_owned();
        text.append(path);
        text
    }
}

impl Tool for WriteFileTool {
    open spec fn described(&self) -> ToolSpecView {
        ToolSpecView {
            name: "write_file"@,
            description: "创建或完整覆盖一个 UTF-8 文本文件"@,
            parameters: JsonView::Object(
                object_schema(
                    no_entries().push(("path"@, described_kind("string"@, "目标文件路径"@))).push(
                        ("content"@, described_kind("string"@, "完整文件内容"@)),
                    ),
                    seq!["path"@, "content"@],
                ),
            ),
        }
    }

    open spec fn harmless(&self) -> bool {
        false
    }

    fn spec(&self) -> (out: ToolSpec) {
        let properties = Entries::new().with(
            "path",
            described_kind_value("string", "目标文件路径"),
        ).with("content", described_kind_value("string", "完整文件内容"));
        let mut required: Vec<String> = Vec::new();
        required.push("path".to_owned());
        required.push("content".to_owned());
        assert(texts(required@) =~= seq!["path"@, "content"@]);
        ToolSpec {
            name: "write_file".to_owned(),
            description: "创建或完整覆盖一个 UTF-8 文本文件".to_owned(),
            parameters: object_schema_entries(properties, &required).object(),
        }
    }

    fn is_read_only(&self) -> (read_only: bool) {
        false
    }
}

/// A file is written only where its path and its content are given.
pub proof fn law_writing_needs_path_and_content(
    entries: Seq<(Seq<char>, JsonView)>,
    path: Seq<char>,
)
    ensures
        ({
            let schema = WriteFileTool.described().parameters;
            &&& (forall|k: int| 0 <= k < entries.len() ==> (#[trigger] entries[k]).0 != "path"@)
                ==> complaint(schema, JsonView::Object(entries), path) == Some(
                path + " 缺少必填字段 "@ + "path"@,
            )
            &&& (exists|k: int| 0 <= k < entries.len() && (#[trigger] entries[k]).0 == "path"@) && (
            forall|k: int| 0 <= k < entries.len() ==> (#[trigger] entries[k]).0 != "content"@)
                ==> complaint(schema, JsonView::Object(entries), path) == Some(
                path + " 缺少必填字段 "@ + "content"@,
            )
            &&& !WriteFileTool.harmless()
        }),
{
    let schema = WriteFileTool.described().parameters;
    let properties = no_entries().push(("path"@, described_kind("string"@, "目标文件路径"@))).push(
        ("content"@, described_kind("string"@, "完整文件内容"@)),
    );
    let names = seq!["path"@, "content"@];
    law_schema_says_what_it_was_made_of(properties, names, "string"@, "string"@);
    let required = Seq::new(2, |i: int| JsonView::Text(names[i]));
    assert(schema.field("required"@) == JsonView::List(required));
    assert(required[0] == JsonView::Text("path"@) && required[1] == JsonView::Text("content"@));
    if forall|k: int| 0 <= k < entries.len() ==> (#[trigger] entries[k]).0 != "path"@ {
        law_the_first_missing_field_is_named(schema, entries, path, required, 0);
    } else if forall|k: int| 0 <= k < entries.len() ==> (#[trigger] entries[k]).0 != "content"@ {
        law_the_first_missing_field_is_named(schema, entries, path, required, 1);
    }
}

} // verus!

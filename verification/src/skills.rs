//! Skills: versioned notes in Markdown that are loaded where a request calls for them.
use vstd::prelude::*;
use vstd::utf8::*;

use crate::number::{decimal, decimal_text, parse_number, parse_usize};
use crate::order::{
    compared, in_rank_order, is_text_before, lemma_compared, lemma_text_before_total,
    lemma_text_before_transitive, ranked, stable_sort, text_before, Ranked, Sortable,
    TotallyRanked,
};
use crate::outside::{
    lowercase, numbers_below, order_fits, order_semver, parse_semver, semver_order, semver_parts,
    text_from_utf8,
};
use crate::path::{file_name, file_name_of, is_within, join_path, joined, lies_within};
use crate::terms::{lemma_skill_terms_finite, skill_terms, terms_of_skill, TermSet};
use crate::text::{
    after_prefix, ascii_lower_text, chars_of, contains, contains_text, find_from, first_at,
    is_ascii_alphanumeric, is_ascii_word, is_blank, is_blank_text, join, join_with, lines, opt_str,
    opt_text, same_text, slice_text, split_lines, strip_prefix, texts, to_ascii_lowercase, trim,
    trimmed,
};

verus! {

/// How many files of a directory are looked at.
pub const MAX_SKILL_FILES: usize = 64;

/// How large a skill may be, in bytes.
pub const MAX_SKILL_BYTES: usize = 65536;

/// How many skills a request loads where nothing is said of it.
pub const DEFAULT_MAX_MATCHES: usize = 3;

/// A semantic version.
#[derive(Clone, Debug, PartialEq, Eq)]
pub struct Version {
    pub major: u64,
    pub minor: u64,
    pub patch: u64,
    pub pre: String,
    pub build: String,
}

impl View for Version {
    type V = (u64, u64, u64, Seq<char>, Seq<char>);

    open spec fn view(&self) -> (u64, u64, u64, Seq<char>, Seq<char>) {
        (self.major, self.minor, self.patch, self.pre@, self.build@)
    }
}

/// A version in words: its numbers, and the other parts where there are any.
pub open spec fn version_text(version: (u64, u64, u64, Seq<char>, Seq<char>)) -> Seq<char> {
    decimal(version.0 as nat) + "."@ + decimal(version.1 as nat) + "."@ + decimal(version.2 as nat)
        + (if version.3.len() == 0 {
        Seq::empty()
    } else {
        "-"@ + version.3
    }) + (if version.4.len() == 0 {
        Seq::empty()
    } else {
        "+"@ + version.4
    })
}

impl Version {
    /// A release with three numbers.
    pub fn new(major: u64, minor: u64, patch: u64) -> (version: Version)
        ensures
            version@ == (major, minor, patch, Seq::<char>::empty(), Seq::<char>::empty()),
    {
        let version = Version { major, minor, patch, pre: String::new(), build: String::new() };
        assert(version.pre@ =~= Seq::empty());
        assert(version.build@ =~= Seq::empty());
        version
    }

    /// The version that a text stands for.
    pub fn parse(text: &str) -> (version: Option<Version>)
        ensures
            match version {
                Some(version) => semver_parts(text@) == Some(version@),
                None => semver_parts(text@) is None,
            },
    {
        match parse_semver(text) {
            Some((major, minor, patch, pre, build)) => Some(
                Version { major, minor, patch, pre, build },
            ),
            None => None,
        }
    }

    /// A copy of the version.
    pub fn copy(&self) -> (out: Version)
        ensures
            out == *self,
    {
        Version {
            major: self.major,
            minor: self.minor,
            patch: self.patch,
            pre: self.pre.clone(),
            build: self.build.clone(),
        }
    }

    /// Whether two versions are the same in all their parts.
    pub fn same(&self, other: &Version) -> (same: bool)
        ensures
            same == (self@ == other@),
    {
        self.major == other.major && self.minor == other.minor && self.patch == other.patch
            && same_text(self.pre.as_str(), other.pre.as_str()) && same_text(
            self.build.as_str(),
            other.build.as_str(),
        )
    }

    /// How the version stands to another.
    pub fn order(&self, other: &Version) -> (order: i8)
        ensures
            order == semver_order(self@, other@),
            numbers_below(
                (self.major, self.minor, self.patch),
                (other.major, other.minor, other.patch),
            ) ==> order < 0,
            numbers_below(
                (other.major, other.minor, other.patch),
                (self.major, self.minor, self.patch),
            ) ==> order > 0,
            self@ == other@ ==> order == 0,
            order_fits(self@, other@, order),
    {
        order_semver(
            (self.major, self.minor, self.patch),
            self.pre.as_str(),
            self.build.as_str(),
            (other.major, other.minor, other.patch),
            other.pre.as_str(),
            other.build.as_str(),
        )
    }

    /// The version in words.
    pub fn text(&self) -> (text: String)
        ensures
            text@ == version_text(self@),
    {
        let mut text = decimal_text(self.major as u128);
        text.append(".");
        text.append(decimal_text(self.minor as u128).as_str());
        text.append(".");
        text.append(decimal_text(self.patch as u128).as_str());
        proof {
            reveal_strlit("");
            assert(self.pre@.len() == 0 ==> self.pre@ =~= ""@);
            assert(self.build@.len() == 0 ==> self.build@ =~= ""@);
        }
        let ghost front = text@;
        if !same_text(self.pre.as_str(), "") {
            text.append("-");
            text.append(self.pre.as_str());
            assert(text@ =~= front + ("-"@ + self.pre@));
        } else {
            assert(text@ =~= front + Seq::empty());
        }
        let ghost front = text@;
        if !same_text(self.build.as_str(), "") {
            text.append("+");
            text.append(self.build.as_str());
            assert(text@ =~= front + ("+"@ + self.build@));
        } else {
            assert(text@ =~= front + Seq::empty());
        }
        text
    }
}

/// What a skill says of itself.
#[derive(Clone, Debug, PartialEq, Eq)]
pub struct SkillManifest {
    pub name: String,
    pub version: Version,
    pub description: String,
    pub keywords: Vec<String>,
    pub scope: Vec<String>,
}

/// A skill that has been read.
#[derive(Clone, Debug, PartialEq, Eq)]
pub struct ParsedSkill {
    pub manifest: SkillManifest,
    pub body: String,
}

/// A skill of the library.
#[derive(Clone, Debug, PartialEq, Eq)]
pub struct SkillIndex {
    pub manifest: SkillManifest,
    pub summary: String,
    pub path: String,
}

/// A skill in the list of skills.
#[derive(Clone, Debug, PartialEq, Eq)]
pub struct SkillInfo {
    pub name: String,
    pub version: Version,
    pub description: String,
}

/// Why something could not be done with a skill.
#[derive(Clone, Debug, PartialEq, Eq)]
pub enum SkillError {
    TooLarge,
    NotUtf8,
    MissingStart,
    MissingEnd,
    EmptyBody,
    InvalidName,
    EmptyDescription,
    EmptyKeyword,
    EmptyScope,
    /// The name that was asked for, and the one that the file says.
    NameMismatch(String, String),
    NotInstalledForUpdate(String),
    NotInstalled(String),
    NotConfirmed,
    /// The source of a skill lies outside the workspace.
    OutsideWorkspace(String),
    NotMarkdown(String),
    /// There is neither a file nor a directory.
    NoSource(String),
    /// There is a directory without a Markdown file.
    NoMarkdown(String),
    NoParent,
    /// The file of a skill lies outside the directory for skills.
    OutsideDirectory(String),
}

impl SkillError {
    /// The error in words.
    pub fn message(&self) -> (text: String)
        ensures
            text@ == (match *self {
                SkillError::TooLarge => "skill 超过 65536 字节限制"@,
                SkillError::NotUtf8 => "skill 必须是 UTF-8"@,
                SkillError::MissingStart => "skill 缺少 YAML frontmatter 起始分隔符"@,
                SkillError::MissingEnd => "skill 缺少 YAML frontmatter 结束分隔符"@,
                SkillError::EmptyBody => "skill 正文不能为空"@,
                SkillError::InvalidName => "skill name 只能包含 ASCII 字母、数字、-、_，且不能以点开头"@,
                SkillError::EmptyDescription => "skill description 不能为空"@,
                SkillError::EmptyKeyword => "skill keywords 不能包含空值"@,
                SkillError::EmptyScope => "skill scope 不能包含空值"@,
                SkillError::NameMismatch(wanted, said) => "update 名称不匹配：期望 "@ + wanted@
                    + "，源文件声明 "@ + said@,
                SkillError::NotInstalledForUpdate(name) => "无法更新未安装的 skill："@ + name@,
                SkillError::NotInstalled(name) => "未安装 skill："@ + name@,
                SkillError::NotConfirmed => "删除 skill 需要显式 --confirm"@,
                SkillError::OutsideWorkspace(path) => "拒绝读取工作区外 skill 源："@ + path@,
                SkillError::NotMarkdown(path) => "skill 安装源必须是 Markdown 文件："@ + path@,
                SkillError::NoSource(path) => "skill 安装源不是文件或目录："@ + path@,
                SkillError::NoMarkdown(path) => "skill 安装目录中没有 Markdown 文件："@ + path@,
                SkillError::NoParent => "skill 目标没有父目录"@,
                SkillError::OutsideDirectory(path) => "skill 目标越过固定目录边界："@ + path@,
            }),
    {
        match self {
            SkillError::TooLarge => "skill 超过 65536 字节限制".to_owned(),
            SkillError::NotUtf8 => "skill 必须是 UTF-8".to_owned(),
            SkillError::MissingStart => "skill 缺少 YAML frontmatter 起始分隔符".to_owned(),
            SkillError::MissingEnd => "skill 缺少 YAML frontmatter 结束分隔符".to_owned(),
            SkillError::EmptyBody => "skill 正文不能为空".to_owned(),
            SkillError::InvalidName =>
                "skill name 只能包含 ASCII 字母、数字、-、_，且不能以点开头".to_owned(),
            SkillError::EmptyDescription => "skill description 不能为空".to_owned(),
            SkillError::EmptyKeyword => "skill keywords 不能包含空值".to_owned(),
            SkillError::EmptyScope => "skill scope 不能包含空值".to_owned(),
            SkillError::NameMismatch(wanted, said) => {
                let mut text = "update 名称不匹配：期望 ".to_owned();
                text.append(wanted.as_str());
                text.append("，源文件声明 ");
                text.append(said.as_str());
                text
            },
            SkillError::NotInstalledForUpdate(name) => {
                let mut text = "无法更新未安装的 skill：".to_owned();
                text.append(name.as_str());
                text
            },
            SkillError::NotInstalled(name) => {
                let mut text = "未安装 skill：".to_owned();
                text.append(name.as_str());
                text
            },
            SkillError::NotConfirmed => "删除 skill 需要显式 --confirm".to_owned(),
            SkillError::OutsideWorkspace(path) => {
                let mut text = "拒绝读取工作区外 skill 源：".to_owned();
                text.append(path.as_str());
                text
            },
            SkillError::NotMarkdown(path) => {
                let mut text = "skill 安装源必须是 Markdown 文件：".to_owned();
                text.append(path.as_str());
                text
            },
            SkillError::NoSource(path) => {
                let mut text = "skill 安装源不是文件或目录：".to_owned();
                text.append(path.as_str());
                text
            },
            SkillError::NoMarkdown(path) => {
                let mut text = "skill 安装目录中没有 Markdown 文件：".to_owned();
                text.append(path.as_str());
                text
            },
            SkillError::NoParent => "skill 目标没有父目录".to_owned(),
            SkillError::OutsideDirectory(path) => {
                let mut text = "skill 目标越过固定目录边界：".to_owned();
                text.append(path.as_str());
                text
            },
        }
    }
}

/// Whether a text may be the name of a skill.
pub open spec fn is_skill_name(name: Seq<char>) -> bool {
    name.len() > 0 && forall|i: int|
        0 <= i < name.len() ==> is_ascii_word(#[trigger] name[i]) || name[i] == '-' || name[i] == '_'
}

/// Checks the name of a skill.
pub fn validate_name(name: &str) -> (out: Result<(), SkillError>)
    ensures
        out is Ok <==> is_skill_name(name@),
        out matches Err(error) ==> error == SkillError::InvalidName,
{
    let chars = chars_of(name);
    if chars.len() == 0 {
        return Err(SkillError::InvalidName);
    }
    let mut at: usize = 0;
    while at < chars.len()
        invariant
            at <= chars.len(),
            chars@ == name@,
            forall|i: int|
                0 <= i < at ==> is_ascii_word(#[trigger] name@[i]) || name@[i] == '-' || name@[i]
                    == '_',
        decreases chars.len() - at,
    {
        let c = chars[at];
        if !(is_ascii_alphanumeric(c) || c == '-' || c == '_') {
            assert(!(is_ascii_word(name@[at as int]) || name@[at as int] == '-' || name@[at as int]
                == '_'));
            return Err(SkillError::InvalidName);
        }
        at += 1;
    }
    Ok(())
}

/// A skill's name leads nowhere else: it holds no slash and no dot.
pub proof fn law_skill_names_stay_in_their_directory(name: Seq<char>, i: int)
    requires
        is_skill_name(name),
        0 <= i < name.len(),
    ensures
        name[i] != '/',
        name[i] != '.',
{
    assert(is_ascii_word(name[i]) || name[i] == '-' || name[i] == '_');
}

/// Whether one of some texts is blank.
pub open spec fn any_blank(list: Seq<Seq<char>>) -> bool {
    exists|i: int| 0 <= i < list.len() && is_blank_text(#[trigger] list[i])
}

fn has_blank(list: &Vec<String>) -> (found: bool)
    ensures
        found == any_blank(texts(list@)),
{
    let mut at: usize = 0;
    while at < list.len()
        invariant
            at <= list.len(),
            forall|i: int| 0 <= i < at ==> !is_blank_text(#[trigger] texts(list@)[i]),
        decreases list.len() - at,
    {
        if is_blank(list[at].as_str()) {
            assert(is_blank_text(texts(list@)[at as int]));
            return true;
        }
        at += 1;
    }
    false
}

/// What is wrong with what a skill says of itself.
pub open spec fn manifest_error(manifest: SkillManifest) -> Option<SkillError> {
    if !is_skill_name(manifest.name@) {
        Some(SkillError::InvalidName)
    } else if is_blank_text(manifest.description@) {
        Some(SkillError::EmptyDescription)
    } else if any_blank(texts(manifest.keywords@)) {
        Some(SkillError::EmptyKeyword)
    } else if any_blank(texts(manifest.scope@)) {
        Some(SkillError::EmptyScope)
    } else {
        None
    }
}

/// Checks what a skill says of itself.
pub fn validate_manifest(manifest: &SkillManifest) -> (out: Result<(), SkillError>)
    ensures
        match manifest_error(*manifest) {
            Some(error) => out == Err::<(), SkillError>(error),
            None => out is Ok,
        },
{
    if validate_name(manifest.name.as_str()).is_err() {
        return Err(SkillError::InvalidName);
    }
    if is_blank(manifest.description.as_str()) {
        return Err(SkillError::EmptyDescription);
    }
    if has_blank(&manifest.keywords) {
        return Err(SkillError::EmptyKeyword);
    }
    if has_blank(&manifest.scope) {
        return Err(SkillError::EmptyScope);
    }
    Ok(())
}

/// A text with plain line feeds for line endings of two characters.
pub open spec fn plain_endings(s: Seq<char>) -> Seq<char>
    decreases s.len(),
{
    if s.len() == 0 {
        Seq::empty()
    } else if s.len() >= 2 && s[0] == '\r' && s[1] == '\n' {
        seq!['\n'] + plain_endings(s.skip(2))
    } else {
        seq![s[0]] + plain_endings(s.skip(1))
    }
}

fn normalize_endings(text: &str) -> (out: String)
    ensures
        out@ == plain_endings(text@),
{
    let chars = chars_of(text);
    let mut out = String::new();
    let mut at: usize = 0;
    assert(text@.skip(0) =~= text@);
    assert(out@ + plain_endings(text@) =~= plain_endings(text@));
    while at < chars.len()
        invariant
            at <= chars.len(),
            chars@ == text@,
            out@ + plain_endings(text@.skip(at as int)) == plain_endings(text@),
        decreases chars.len() - at,
    {
        let ghost rest = text@.skip(at as int);
        let ghost before = out@;
        assert(rest[0] == chars@[at as int]);
        if at + 1 < chars.len() && chars[at] == '\r' && chars[at + 1] == '\n' {
            assert(rest[1] == chars@[at + 1]);
            out.push('\n');
            assert(rest.skip(2) =~= text@.skip(at + 2));
            at += 2;
            assert(out@ + plain_endings(text@.skip(at as int)) =~= before + plain_endings(rest));
        } else {
            out.push(chars[at]);
            assert(rest.len() >= 2 ==> rest[1] == chars@[at + 1]);
            assert(rest.skip(1) =~= text@.skip(at + 1));
            at += 1;
            assert(out@ + plain_endings(text@.skip(at as int)) =~= before + plain_endings(rest));
        }
    }
    assert(text@.skip(at as int).len() == 0);
    assert(out@ + plain_endings(text@.skip(at as int)) =~= out@);
    out
}

/// The head and the body of a skill's text: the head stands between two lines of
/// three dashes.
pub open spec fn skill_parts(text: Seq<char>) -> Result<(Seq<char>, Seq<char>), SkillError> {
    match after_prefix(plain_endings(text), "---\n"@) {
        None => Err(SkillError::MissingStart),
        Some(rest) => match first_at(rest, "\n---\n"@, 0) {
            None => Err(SkillError::MissingEnd),
            Some(at) => Ok((rest.take(at), rest.skip(at + "\n---\n"@.len()))),
        },
    }
}

/// The head and the body of a skill's file.
pub open spec fn skill_file_parts(bytes: Seq<u8>) -> Result<(Seq<char>, Seq<char>), SkillError> {
    if bytes.len() > MAX_SKILL_BYTES {
        Err(SkillError::TooLarge)
    } else if !valid_utf8(bytes) {
        Err(SkillError::NotUtf8)
    } else {
        skill_parts(decode_utf8(bytes))
    }
}

/// The head and the body of a skill's file.
pub fn split_skill(bytes: Vec<u8>) -> (out: Result<(String, String), SkillError>)
    ensures
        match out {
            Ok((head, body)) => skill_file_parts(bytes@) == Ok::<
                (Seq<char>, Seq<char>),
                SkillError,
            >((head@, body@)),
            Err(error) => skill_file_parts(bytes@) == Err::<(Seq<char>, Seq<char>), SkillError>(
                error,
            ),
        },
{
    if bytes.len() > MAX_SKILL_BYTES {
        return Err(SkillError::TooLarge);
    }
    let source = match text_from_utf8(bytes) {
        Some(source) => source,
        None => return Err(SkillError::NotUtf8),
    };
    let normalized = normalize_endings(source.as_str());
    let rest = match strip_prefix(normalized.as_str(), "---\n") {
        Some(rest) => rest,
        None => return Err(SkillError::MissingStart),
    };
    let chars = chars_of(rest.as_str());
    let fence = chars_of("\n---\n");
    let total = chars.len();
    match find_from(&chars, &fence, 0) {
        Some(at) => {
            let head = slice_text(&chars, 0, at);
            let body = slice_text(&chars, at + fence.len(), total);
            assert(head@ =~= rest@.take(at as int));
            assert(body@ =~= rest@.skip(at + fence.len()));
            Ok((head, body))
        },
        None => Err(SkillError::MissingEnd),
    }
}

/// A skill of a manifest and a body, if it is in order.
pub fn read_skill(manifest: SkillManifest, body: &str) -> (out: Result<ParsedSkill, SkillError>)
    ensures
        match manifest_error(manifest) {
            Some(error) => out == Err::<ParsedSkill, SkillError>(error),
            None => if is_blank_text(body@) {
                out == Err::<ParsedSkill, SkillError>(SkillError::EmptyBody)
            } else {
                out matches Ok(skill) && skill.manifest == manifest && skill.body@ == trim(body@)
            },
        },
{
    match validate_manifest(&manifest) {
        Ok(_) => {},
        Err(error) => return Err(error),
    }
    if is_blank(body) {
        return Err(SkillError::EmptyBody);
    }
    Ok(ParsedSkill { manifest, body: trimmed(body) })
}

/// The first of some lines, from one on, that is neither blank nor a heading.
pub open spec fn first_prose(list: Seq<Seq<char>>, from: int) -> Option<Seq<char>>
    decreases list.len() - from,
{
    if from >= list.len() {
        None
    } else {
        let line = trim(list[from]);
        if line.len() > 0 && line[0] != '#' {
            Some(line)
        } else {
            first_prose(list, from + 1)
        }
    }
}

/// What a skill's body says in short: the beginning of its first line of prose.
pub open spec fn summary_of(body: Seq<char>) -> Seq<char> {
    let line = match first_prose(lines(body), 0) {
        Some(line) => line,
        None => "（未提供摘要）"@,
    };
    if line.len() > 240 {
        line.take(240)
    } else {
        line
    }
}

/// What a skill's body says in short.
pub fn fallback_summary(body: &str) -> (out: String)
    ensures
        out@ == summary_of(body@),
{
    let list = split_lines(body);
    let mut found: Option<String> = None;
    let mut at: usize = 0;
    while at < list.len()
        invariant_except_break
            found is None,
            first_prose(lines(body@), 0) == first_prose(lines(body@), at as int),
        invariant
            at <= list.len(),
            texts(list@) == lines(body@),
        ensures
            opt_text(found) == first_prose(lines(body@), 0),
        decreases list.len() - at,
    {
        assert(lines(body@)[at as int] == list@[at as int]@);
        let line = trimmed(list[at].as_str());
        let chars = chars_of(line.as_str());
        if chars.len() > 0 && chars[0] != '#' {
            found = Some(line);
            break;
        }
        at += 1;
    }
    let line = match found {
        Some(line) => line,
        None => "（未提供摘要）".to_owned(),
    };
    let chars = chars_of(line.as_str());
    if chars.len() > 240 {
        let out = slice_text(&chars, 0, 240);
        assert(out@ =~= line@.take(240));
        out
    } else {
        line
    }
}

/// What follows the last dot of a name; nothing where no dot stands behind the
/// first character.
pub open spec fn extension_of(name: Seq<char>) -> Option<Seq<char>>
    decreases name.len(),
{
    if name.len() <= 1 {
        None
    } else if name.last() == '.' {
        Some(Seq::empty())
    } else {
        match extension_of(name.drop_last()) {
            Some(extension) => Some(extension.push(name.last())),
            None => None,
        }
    }
}

/// Whether a path leads to a Markdown file, by its name.
pub open spec fn is_markdown_path(path: Seq<char>) -> bool {
    match file_name_of(path) {
        Some(name) => match extension_of(name) {
            Some(extension) => ascii_lower_text(extension) == "md"@,
            None => false,
        },
        None => false,
    }
}

proof fn lemma_extension(name: Seq<char>, dot: int)
    requires
        0 < dot < name.len(),
        name[dot] == '.',
        forall|i: int| dot < i < name.len() ==> #[trigger] name[i] != '.',
    ensures
        extension_of(name) == Some(name.skip(dot + 1)),
    decreases name.len(),
{
    if dot == name.len() - 1 {
        assert(name.skip(dot + 1) =~= Seq::empty());
    } else {
        assert(name[name.len() - 1] != '.');
        lemma_extension(name.drop_last(), dot);
        assert(name.skip(dot + 1) =~= name.drop_last().skip(dot + 1).push(name.last()));
    }
}

proof fn lemma_no_extension(name: Seq<char>)
    requires
        forall|i: int| 0 < i < name.len() ==> #[trigger] name[i] != '.',
    ensures
        extension_of(name) is None,
    decreases name.len(),
{
    if name.len() > 1 {
        assert(name[name.len() - 1] != '.');
        lemma_no_extension(name.drop_last());
    }
}

/// Whether a path leads to a Markdown file, by its name.
pub fn is_markdown(path: &str) -> (markdown: bool)
    ensures
        markdown == is_markdown_path(path@),
{
    let name = match file_name(path) {
        Some(name) => name,
        None => return false,
    };
    let chars = chars_of(name.as_str());
    let mut end: usize = chars.len();
    while end > 1
        invariant
            end <= chars.len(),
            chars@ == name@,
            file_name_of(path@) == Some(name@),
            forall|i: int| end <= i < chars.len() ==> #[trigger] name@[i] != '.',
        decreases end,
    {
        let dot = end - 1;
        if chars[dot] == '.' {
            let extension = slice_text(&chars, dot + 1, chars.len());
            proof {
                lemma_extension(name@, dot as int);
                assert(extension@ =~= name@.skip(dot + 1));
            }
            return same_text(to_ascii_lowercase(extension.as_str()).as_str(), "md");
        }
        end = dot;
    }
    proof {
        lemma_no_extension(name@);
    }
    false
}

/// Texts in the order of their characters.
impl Ranked for String {
    open spec fn before(&self, other: &String) -> bool {
        text_before(self@, other@)
    }
}

impl TotallyRanked for String {
    proof fn ranking_laws(a: &String, b: &String, c: &String) {
        lemma_text_before_total(a@, b@);
        lemma_text_before_total(b@, c@);
        lemma_text_before_total(a@, c@);
        if text_before(c@, a@) && text_before(a@, b@) {
            lemma_text_before_transitive(c@, a@, b@);
        }
    }
}

impl Sortable for String {
    fn is_before(&self, other: &String) -> (before: bool) {
        proof {
            lemma_compared(*self, *other);
        }
        is_text_before(self.as_str(), other.as_str())
    }
}

/// The Markdown files among some.
pub open spec fn markdown_paths(paths: Seq<String>) -> Seq<String>
    decreases paths.len(),
{
    if paths.len() == 0 {
        Seq::empty()
    } else if is_markdown_path(paths.last()@) {
        markdown_paths(paths.drop_last()).push(paths.last())
    } else {
        markdown_paths(paths.drop_last())
    }
}

/// The first of some texts, as many as are looked at.
pub open spec fn first_files(paths: Seq<String>) -> Seq<String> {
    if paths.len() > MAX_SKILL_FILES {
        paths.take(MAX_SKILL_FILES as int)
    } else {
        paths
    }
}

/// The files of a directory that are looked at: the Markdown files, in order, as
/// many as there is room for.
pub fn pick_skill_files(paths: Vec<String>) -> (out: Vec<String>)
    ensures
        out@ == first_files(ranked(markdown_paths(paths@))),
{
    let ghost all = paths@;
    let mut found: Vec<String> = Vec::new();
    assert(found@ =~= markdown_paths(all.take(0)));
    for path in iter: paths
        invariant
            iter.seq() == all,
            found@ == markdown_paths(all.take(iter.index() as int)),
    {
        assert(all.take(iter.index() + 1).drop_last() =~= all.take(iter.index() as int));
        assert(all.take(iter.index() + 1).last() == path);
        if is_markdown(path.as_str()) {
            found.push(path);
        }
    }
    assert(all.take(all.len() as int) =~= all);
    let mut out = stable_sort(found);
    if out.len() > MAX_SKILL_FILES {
        out.truncate(MAX_SKILL_FILES);
        assert(out@ =~= ranked(markdown_paths(all)).take(MAX_SKILL_FILES as int));
    }
    out
}

/// A skill's file that has been read, if it was in order.
#[derive(Clone, Debug, PartialEq, Eq)]
pub struct SkillFile {
    pub path: String,
    pub skill: Option<ParsedSkill>,
}

/// Whether a skill with a name is among some.
pub open spec fn has_skill(skills: Seq<SkillIndex>, name: Seq<char>) -> bool {
    exists|i: int| 0 <= i < skills.len() && (#[trigger] skills[i]).manifest.name@ == name
}

/// Whether a skill of the library is the one that was read from a file.
pub open spec fn indexes(skill: SkillIndex, file: SkillFile) -> bool {
    file.skill matches Some(parsed) && skill.manifest == parsed.manifest && skill.summary@ == summary_of(
        parsed.body@,
    ) && skill.path == file.path
}

/// Whether some skills are those of the first `n` files: each that was in order
/// and whose name is not taken by an earlier one.
pub open spec fn is_index(skills: Seq<SkillIndex>, files: Seq<SkillFile>, n: int) -> bool
    decreases n,
{
    if n <= 0 {
        skills.len() == 0
    } else {
        match files[n - 1].skill {
            None => is_index(skills, files, n - 1),
            Some(parsed) => {
                ||| has_skill(skills, parsed.manifest.name@) && is_index(skills, files, n - 1)
                ||| skills.len() > 0 && indexes(skills.last(), files[n - 1]) && !has_skill(
                    skills.drop_last(),
                    parsed.manifest.name@,
                ) && is_index(skills.drop_last(), files, n - 1)
            },
        }
    }
}

fn holds_skill(skills: &Vec<SkillIndex>, name: &str) -> (found: Option<usize>)
    ensures
        match found {
            Some(at) => at < skills@.len() && skills@[at as int].manifest.name@ == name@ && forall|
                i: int,
            |
                0 <= i < at ==> (#[trigger] skills@[i]).manifest.name@ != name@,
            None => !has_skill(skills@, name@),
        },
{
    let mut at: usize = 0;
    while at < skills.len()
        invariant
            at <= skills.len(),
            forall|i: int| 0 <= i < at ==> (#[trigger] skills@[i]).manifest.name@ != name@,
        decreases skills.len() - at,
    {
        if same_text(skills[at].manifest.name.as_str(), name) {
            return Some(at);
        }
        at += 1;
    }
    None
}

/// The skills of some files.
pub fn load_index(files: Vec<SkillFile>) -> (skills: Vec<SkillIndex>)
    ensures
        is_index(skills@, files@, files@.len() as int),
{
    let ghost all = files@;
    let mut skills: Vec<SkillIndex> = Vec::new();
    for file in iter: files
        invariant
            iter.seq() == all,
            is_index(skills@, all, iter.index() as int),
    {
        assert(all[iter.index() as int] == file);
        match file.skill {
            Some(parsed) => {
                if holds_skill(&skills, parsed.manifest.name.as_str()).is_none() {
                    let ghost before = skills@;
                    skills.push(
                        SkillIndex {
                            summary: fallback_summary(parsed.body.as_str()),
                            manifest: parsed.manifest,
                            path: file.path,
                        },
                    );
                    assert(skills@.drop_last() =~= before);
                    assert(indexes(skills@.last(), all[iter.index() as int]));
                }
            },
            None => {},
        }
    }
    skills
}

proof fn lemma_index_names(skills: Seq<SkillIndex>, files: Seq<SkillFile>, n: int)
    requires
        is_index(skills, files, n),
    ensures
        forall|i: int, j: int|
            0 <= i < j < skills.len() ==> (#[trigger] skills[i]).manifest.name@ != (
            #[trigger] skills[j]).manifest.name@,
    decreases n,
{
    if n > 0 {
        match files[n - 1].skill {
            None => {
                lemma_index_names(skills, files, n - 1);
            },
            Some(parsed) => {
                if has_skill(skills, parsed.manifest.name@) && is_index(skills, files, n - 1) {
                    lemma_index_names(skills, files, n - 1);
                } else {
                    let front = skills.drop_last();
                    lemma_index_names(front, files, n - 1);
                    assert forall|i: int, j: int| 0 <= i < j < skills.len() implies (
                    #[trigger] skills[i]).manifest.name@ != (#[trigger] skills[j]).manifest.name@ by {
                        if j < front.len() {
                            assert(front[i].manifest.name@ != front[j].manifest.name@);
                        } else {
                            assert(front[i].manifest.name@ != parsed.manifest.name@);
                        }
                    }
                }
            },
        }
    }
}

/// No two skills of the library have one name.
pub proof fn law_skill_names_are_unique(skills: Seq<SkillIndex>, files: Seq<SkillFile>, i: int, j: int)
    requires
        is_index(skills, files, files.len() as int),
        0 <= i < j < skills.len(),
    ensures
        skills[i].manifest.name@ != skills[j].manifest.name@,
{
    lemma_index_names(skills, files, files.len() as int);
}

/// `n` times `k`, as far as the type goes.
pub open spec fn capped_product(n: nat, k: nat) -> nat {
    if n * k <= u64::MAX {
        n * k
    } else {
        u64::MAX as nat
    }
}

fn scaled(n: u64, k: u64) -> (out: u64)
    ensures
        out == capped_product(n as nat, k as nat),
{
    proof {
        assert(n as int * k as int <= 0xffff_ffff_ffff_ffff * 0xffff_ffff_ffff_ffff) by (nonlinear_arith)
            requires
                0 <= n as int <= 0xffff_ffff_ffff_ffff,
                0 <= k as int <= 0xffff_ffff_ffff_ffff,
        ;
    }
    let product: u128 = n as u128 * k as u128;
    if product <= u64::MAX as u128 {
        product as u64
    } else {
        u64::MAX
    }
}

/// Whether a request calls for a keyword: it holds it, or it is one of its terms.
pub open spec fn keyword_hit(keyword: Seq<char>, query: Seq<char>) -> bool {
    contains_text(lowercase(query), lowercase(keyword)) || skill_terms(query).contains(
        lowercase(keyword),
    )
}

/// How many of some keywords a request calls for.
pub open spec fn keyword_hits(keywords: Seq<Seq<char>>, query: Seq<char>) -> nat
    decreases keywords.len(),
{
    if keywords.len() == 0 {
        0
    } else {
        keyword_hits(keywords.drop_last(), query) + (if keyword_hit(keywords.last(), query) {
            1nat
        } else {
            0nat
        })
    }
}

/// What is known of a skill without its body, as one text.
pub open spec fn metadata(skill: SkillIndex) -> Seq<char> {
    skill.manifest.name@ + " "@ + skill.manifest.description@ + " "@ + join_with(
        texts(skill.manifest.scope@),
        " "@,
    ) + " "@ + skill.summary@
}

/// How many in a hundred, or ten, or so, of a text's terms a request shares.
pub open spec fn share(text: Seq<char>, query: Seq<char>, scale: nat) -> nat {
    let own = skill_terms(text);
    capped_product(own.intersect(skill_terms(query)).len(), scale) / (if own.len() > 1 {
        own.len()
    } else {
        1
    })
}

/// How well a skill fits a request. `body` is the skill's text, as far as it can
/// be read. It counts only where something else fits already.
pub open spec fn skill_score(skill: SkillIndex, body: Option<Seq<char>>, query: Seq<char>) -> u64 {
    let hits = keyword_hits(texts(skill.manifest.keywords@), query);
    let shared = skill_terms(metadata(skill)).intersect(skill_terms(query)).len();
    let from_body = if hits > 0 || shared > 0 {
        match body {
            Some(body) => share(body, query, 10),
            None => 0,
        }
    } else {
        0
    };
    let total = hits * 10000 + share(metadata(skill), query, 100) + from_body;
    if total <= u64::MAX {
        total as u64
    } else {
        u64::MAX
    }
}

/// A skill with how well it fits a request.
#[derive(Clone, Debug, PartialEq, Eq)]
pub struct RankedSkill {
    pub score: u64,
    pub version: Version,
    pub name: String,
    /// Where the skill stands in the library.
    pub at: usize,
}

/// The better fit first, then the higher version, then by name.
impl Ranked for RankedSkill {
    open spec fn before(&self, other: &RankedSkill) -> bool {
        if self.score != other.score {
            self.score > other.score
        } else if semver_order(other.version@, self.version@) != 0 {
            semver_order(other.version@, self.version@) < 0
        } else {
            text_before(self.name@, other.name@)
        }
    }
}

impl Sortable for RankedSkill {
    fn is_before(&self, other: &RankedSkill) -> (before: bool) {
        if self.score != other.score {
            assert(compared(*self, *other));
            return self.score > other.score;
        }
        let order = other.version.order(&self.version);
        proof {
            lemma_skills_compared(*self, *other);
        }
        if order != 0 {
            return order < 0;
        }
        is_text_before(self.name.as_str(), other.name.as_str())
    }
}

proof fn lemma_skills_compared(a: RankedSkill, b: RankedSkill)
    requires
        a.score == b.score,
        order_fits(b.version@, a.version@, semver_order(b.version@, a.version@)),
    ensures
        compared(a, b),
{
    lemma_text_before_total(a.name@, b.name@);
    assert forall|c: RankedSkill|
        #![trigger c.before(&b)]
        !b.before(&a) && !c.before(&b) implies !c.before(&a) by {
        lemma_names_carry_over(a.name@, b.name@, c.name@);
    }
    assert forall|c: RankedSkill|
        #![trigger c.before(&a)]
        !a.before(&b) && !c.before(&a) implies !c.before(&b) by {
        lemma_names_carry_over(b.name@, a.name@, c.name@);
    }
}

proof fn lemma_names_carry_over(a: Seq<char>, b: Seq<char>, c: Seq<char>)
    ensures
        !text_before(b, a) && !text_before(c, b) ==> !text_before(c, a),
{
    lemma_text_before_total(a, b);
    lemma_text_before_total(b, c);
    if text_before(c, a) && text_before(a, b) {
        lemma_text_before_transitive(c, a, b);
    }
}

/// The body of a skill that was read.
pub open spec fn body_of(skill: Option<ParsedSkill>) -> Option<Seq<char>> {
    match skill {
        Some(parsed) => Some(parsed.body@),
        None => None,
    }
}

/// The skills among the first `n` that fit a request at all, with how well.
pub open spec fn fitting(
    skills: Seq<SkillIndex>,
    reads: Seq<Option<ParsedSkill>>,
    query: Seq<char>,
    n: int,
) -> Seq<RankedSkill>
    decreases n,
{
    if n <= 0 {
        Seq::empty()
    } else {
        let before = fitting(skills, reads, query, n - 1);
        let score = skill_score(skills[n - 1], body_of(reads[n - 1]), query);
        if score > 0 {
            before.push(
                RankedSkill {
                    score,
                    version: skills[n - 1].manifest.version,
                    name: skills[n - 1].manifest.name,
                    at: (n - 1) as usize,
                },
            )
        } else {
            before
        }
    }
}

fn count_hits(keywords: &Vec<String>, query: &str, query_lower: &str, query_terms: &TermSet) -> (hits:
    u64)
    requires
        query_lower@ == lowercase(query@),
        query_terms@ == skill_terms(query@),
    ensures
        hits == keyword_hits(texts(keywords@), query@),
{
    let ghost all = texts(keywords@);
    let mut hits: u64 = 0;
    let mut at: usize = 0;
    while at < keywords.len()
        invariant
            at <= keywords.len(),
            all == texts(keywords@),
            query_lower@ == lowercase(query@),
            query_terms@ == skill_terms(query@),
            hits <= at,
            hits == keyword_hits(all.take(at as int), query@),
        decreases keywords.len() - at,
    {
        assert(all.take(at + 1).drop_last() =~= all.take(at as int));
        assert(all.take(at + 1).last() == keywords@[at as int]@);
        let keyword = keywords[at].as_str().to_lowercase();
        if contains(query_lower, keyword.as_str()) || query_terms.contains(keyword.as_str()) {
            hits += 1;
        }
        at += 1;
    }
    assert(all.take(at as int) =~= all);
    hits
}

fn shared_part(text: &str, query: &str, query_terms: &TermSet, scale: u64) -> (out: (u64, u64))
    requires
        query_terms@ == skill_terms(query@),
        scale <= 100,
    ensures
        out.0 == skill_terms(text@).intersect(skill_terms(query@)).len(),
        out.1 == share(text@, query@, scale as nat),
{
    let own = terms_of_skill(text);
    let shared = own.overlap(query_terms) as u64;
    let count = own.len() as u64;
    let divisor: u64 = if count > 1 {
        count
    } else {
        1
    };
    (shared, scaled(shared, scale) / divisor)
}

fn metadata_text(skill: &SkillIndex) -> (text: String)
    ensures
        text@ == metadata(*skill),
{
    let mut text = skill.manifest.name.clone();
    text.append(" ");
    text.append(skill.manifest.description.as_str());
    text.append(" ");
    text.append(join(&skill.manifest.scope, " ").as_str());
    text.append(" ");
    text.append(skill.summary.as_str());
    text
}

/// The skills that fit a request, the best first. `reads` holds each skill as it
/// can be read now.
pub fn rank_skills(skills: &Vec<SkillIndex>, reads: &Vec<Option<ParsedSkill>>, query: &str) -> (out:
    Vec<RankedSkill>)
    requires
        skills@.len() == reads@.len(),
    ensures
        out@ == ranked(fitting(skills@, reads@, query@, skills@.len() as int)),
        in_rank_order(out@),
{
    let query_lower = query.to_lowercase();
    let query_terms = terms_of_skill(query);
    let mut found: Vec<RankedSkill> = Vec::new();
    let mut at: usize = 0;
    while at < skills.len()
        invariant
            at <= skills.len(),
            skills@.len() == reads@.len(),
            query_lower@ == lowercase(query@),
            query_terms@ == skill_terms(query@),
            found@ == fitting(skills@, reads@, query@, at as int),
        decreases skills.len() - at,
    {
        let skill = &skills[at];
        let hits = count_hits(&skill.manifest.keywords, query, query_lower.as_str(), &query_terms);
        let text = metadata_text(skill);
        let (shared, part) = shared_part(text.as_str(), query, &query_terms, 100);
        let mut from_body: u64 = 0;
        if hits > 0 || shared > 0 {
            if let Some(parsed) = &reads[at] {
                from_body = shared_part(parsed.body.as_str(), query, &query_terms, 10).1;
            }
        }
        let score = scaled(hits, 10000).saturating_add(part).saturating_add(from_body);
        assert(score == skill_score(*skill, body_of(reads@[at as int]), query@));
        if score > 0 {
            found.push(
                RankedSkill {
                    score,
                    version: skill.manifest.version.copy(),
                    name: skill.manifest.name.clone(),
                    at,
                },
            );
        }
        at += 1;
    }
    stable_sort(found)
}

/// A name and a version.
pub open spec fn label(name: Seq<char>, version: (u64, u64, u64, Seq<char>, Seq<char>)) -> Seq<char> {
    name + "@"@ + version_text(version)
}

fn label_text(name: &str, version: &Version) -> (text: String)
    ensures
        text@ == label(name@, version@),
{
    let mut text = name.to_owned();
    text.append("@");
    text.append(version.text().as_str());
    text
}

/// The lines of the index of some skills.
pub open spec fn index_lines(skills: Seq<SkillIndex>) -> Seq<char>
    decreases skills.len(),
{
    if skills.len() == 0 {
        Seq::empty()
    } else {
        let last = skills.last().manifest;
        index_lines(skills.drop_last()) + ("\n- "@ + label(last.name@, last.version@) + "："@
            + last.description@)
    }
}

/// The bodies of the first `n` of some skills, as far as they can be read.
pub open spec fn body_blocks(
    order: Seq<RankedSkill>,
    reads: Seq<Option<ParsedSkill>>,
    n: int,
) -> Seq<char>
    decreases n,
{
    if n <= 0 {
        Seq::empty()
    } else {
        let before = body_blocks(order, reads, n - 1);
        match reads[order[n - 1].at as int] {
            Some(parsed) => before + ("\n\n### "@ + label(
                parsed.manifest.name@,
                parsed.manifest.version@,
            ) + "\n"@ + parsed.body@),
            None => before,
        }
    }
}

/// What the model is told of the skills for a request: the index of all of them,
/// and the bodies of the best few that fit.
pub open spec fn skill_context(
    skills: Seq<SkillIndex>,
    reads: Seq<Option<ParsedSkill>>,
    query: Seq<char>,
    max_matches: nat,
) -> Option<Seq<char>> {
    let index = "可用技能索引（仅结构化元数据）："@ + index_lines(skills);
    let order = ranked(fitting(skills, reads, query, skills.len() as int));
    if skills.len() == 0 {
        None
    } else if order.len() == 0 {
        Some(index)
    } else {
        let n = if order.len() < max_matches {
            order.len() as int
        } else {
            max_matches as int
        };
        Some(index + "\n\n按当前请求命中的技能正文："@ + body_blocks(order, reads, n))
    }
}

/// What becomes of a skill that is installed.
#[derive(Clone, Debug, PartialEq, Eq)]
pub enum InstallOutcome {
    Installed { name: String, version: Version },
    Skipped { name: String, version: Version, reason: String },
}

impl InstallOutcome {
    /// The outcome in words.
    pub open spec fn words(self) -> Seq<char> {
        match self {
            InstallOutcome::Installed { name, version } => "已安装 "@ + label(name@, version@),
            InstallOutcome::Skipped { name, version, reason } => "已跳过 "@ + label(
                name@,
                version@,
            ) + "："@ + reason@,
        }
    }

    /// The outcome in words.
    pub fn text(&self) -> (text: String)
        ensures
            text@ == self.words(),
    {
        match self {
            InstallOutcome::Installed { name, version } => {
                let mut text = "已安装 ".to_owned();
                text.append(label_text(name.as_str(), version).as_str());
                text
            },
            InstallOutcome::Skipped { name, version, reason } => {
                let mut text = "已跳过 ".to_owned();
                text.append(label_text(name.as_str(), version).as_str());
                text.append("：");
                text.append(reason.as_str());
                text
            },
        }
    }
}

/// What has to be done to install a skill.
#[derive(Clone, Debug, PartialEq, Eq)]
pub enum InstallStep {
    /// Nothing: it cannot be done.
    Refuse(SkillError),
    /// Nothing: it is not wanted.
    Skip(InstallOutcome),
    /// To write the file, and to take away an older one elsewhere.
    Write { target: String, stale: Option<String>, outcome: InstallOutcome },
}

/// Why a skill is not installed over one that is there already.
pub open spec fn skip_reason(
    version: (u64, u64, u64, Seq<char>, Seq<char>),
    current: (u64, u64, u64, Seq<char>, Seq<char>),
    force: bool,
) -> Option<Seq<char>> {
    if version == current {
        Some("同版本已安装"@)
    } else if semver_order(version, current) < 0 && !force {
        Some("已安装更高版本 "@ + version_text(current) + "；降级需 --force"@)
    } else {
        None
    }
}

/// The first skill with a name.
pub open spec fn skill_at(skills: Seq<SkillIndex>, name: Seq<char>, from: int) -> Option<int>
    decreases skills.len() - from,
{
    if from >= skills.len() {
        None
    } else if skills[from].manifest.name@ == name {
        Some(from)
    } else {
        skill_at(skills, name, from + 1)
    }
}

proof fn lemma_skill_at_is(skills: Seq<SkillIndex>, name: Seq<char>, from: int, at: int)
    requires
        0 <= from <= at < skills.len(),
        forall|i: int| from <= i < at ==> (#[trigger] skills[i]).manifest.name@ != name,
        skills[at].manifest.name@ == name,
    ensures
        skill_at(skills, name, from) == Some(at),
    decreases at - from,
{
    if from < at {
        assert(skills[from].manifest.name@ != name);
        lemma_skill_at_is(skills, name, from + 1, at);
    }
}

proof fn lemma_skill_at_none(skills: Seq<SkillIndex>, name: Seq<char>, from: int)
    requires
        0 <= from,
        !has_skill(skills, name),
    ensures
        skill_at(skills, name, from) is None,
    decreases skills.len() - from,
{
    if from < skills.len() {
        assert(skills[from].manifest.name@ != name);
        lemma_skill_at_none(skills, name, from + 1);
    }
}

/// The library of the skills.
#[derive(Debug)]
pub struct SkillLibrary {
    pub workspace: String,
    pub directory: String,
    pub index: Vec<SkillIndex>,
    pub max_matches: usize,
}

/// How many skills a request loads by a setting; a setting that makes no sense
/// counts as none.
pub open spec fn max_matches_of(setting: Option<Seq<char>>) -> usize {
    match setting {
        Some(text) => match parse_number(text, usize::MAX as nat) {
            Some(n) => if n > 0 {
                n as usize
            } else {
                DEFAULT_MAX_MATCHES
            },
            None => DEFAULT_MAX_MATCHES,
        },
        None => DEFAULT_MAX_MATCHES,
    }
}

impl SkillLibrary {
    /// The library that the settings ask for, with no skill read yet.
    pub fn from_env(workspace: &str, configured: Option<&str>, max_matches: Option<&str>) -> (library:
        SkillLibrary)
        ensures
            library.workspace@ == workspace@,
            library.directory@ == (match opt_str(configured) {
                Some(path) => joined(workspace@, path),
                None => joined(workspace@, ".my-agent/skills"@),
            }),
            library.index@.len() == 0,
            library.max_matches == max_matches_of(opt_str(max_matches)),
    {
        let directory = match configured {
            Some(path) => join_path(workspace, path),
            None => join_path(workspace, ".my-agent/skills"),
        };
        let mut limit = DEFAULT_MAX_MATCHES;
        if let Some(text) = max_matches {
            if let Some(n) = parse_usize(text) {
                if n > 0 {
                    limit = n;
                }
            }
        }
        SkillLibrary {
            workspace: workspace.to_owned(),
            directory,
            index: Vec::new(),
            max_matches: limit,
        }
    }

    /// Takes the skills of some files for the skills of the library.
    pub fn refresh(&mut self, files: Vec<SkillFile>)
        ensures
            is_index(final(self).index@, files@, files@.len() as int),
            final(self).workspace == old(self).workspace,
            final(self).directory == old(self).directory,
            final(self).max_matches == old(self).max_matches,
    {
        self.index = load_index(files);
    }

    /// What the model is told of the skills for a request.
    pub fn context_for(&self, reads: &Vec<Option<ParsedSkill>>, query: &str) -> (out: Option<String>)
        requires
            reads@.len() == self.index@.len(),
        ensures
            opt_text(out) == skill_context(
                self.index@,
                reads@,
                query@,
                self.max_matches as nat,
            ),
    {
        if self.index.len() == 0 {
            return None;
        }
        let mut out = "可用技能索引（仅结构化元数据）：".to_owned();
        let ghost head = out@;
        let ghost skills = self.index@;
        let mut at: usize = 0;
        assert(index_lines(skills.take(0)) =~= Seq::empty());
        assert(out@ =~= head + Seq::empty());
        while at < self.index.len()
            invariant
                at <= self.index.len(),
                skills == self.index@,
                out@ == head + index_lines(skills.take(at as int)),
            decreases self.index.len() - at,
        {
            let manifest = &self.index[at].manifest;
            let ghost before = index_lines(skills.take(at as int));
            assert(skills.take(at + 1).drop_last() =~= skills.take(at as int));
            let mut line = "\n- ".to_owned();
            line.append(label_text(manifest.name.as_str(), &manifest.version).as_str());
            line.append("：");
            line.append(manifest.description.as_str());
            out.append(line.as_str());
            assert(out@ =~= head + (before + line@));
            at += 1;
        }
        assert(skills.take(at as int) =~= skills);
        let order = rank_skills(&self.index, reads, query);
        if order.len() == 0 {
            return Some(out);
        }
        out.append("\n\n按当前请求命中的技能正文：");
        let ghost front = out@;
        let count = if order.len() < self.max_matches {
            order.len()
        } else {
            self.max_matches
        };
        proof {
            lemma_fitting_positions(self.index@, reads@, query@, self.index@.len() as int);
            lemma_ranked_positions(self.index@, reads@, query@);
        }
        at = 0;
        assert(out@ =~= front + Seq::empty());
        while at < count
            invariant
                at <= count <= order@.len(),
                forall|i: int| 0 <= i < order@.len() ==> (#[trigger] order@[i]).at < reads@.len(),
                out@ == front + body_blocks(order@, reads@, at as int),
            decreases count - at,
        {
            let ghost before = body_blocks(order@, reads@, at as int);
            if let Some(parsed) = &reads[order[at].at] {
                let mut block = "\n\n### ".to_owned();
                block.append(
                    label_text(parsed.manifest.name.as_str(), &parsed.manifest.version).as_str(),
                );
                block.append("\n");
                block.append(parsed.body.as_str());
                out.append(block.as_str());
                assert(out@ =~= front + (before + block@));
            }
            at += 1;
        }
        Some(out)
    }

    /// The list of the skills.
    pub fn list(&self) -> (out: Vec<SkillInfo>)
        ensures
            out@.len() == self.index@.len(),
            forall|i: int|
                0 <= i < out@.len() ==> (#[trigger] out@[i]).name == self.index@[i].manifest.name
                    && out@[i].version == self.index@[i].manifest.version && out@[i].description
                    == self.index@[i].manifest.description,
    {
        let mut out: Vec<SkillInfo> = Vec::new();
        let mut at: usize = 0;
        while at < self.index.len()
            invariant
                at == out.len(),
                at <= self.index.len(),
                forall|i: int|
                    0 <= i < out@.len() ==> (#[trigger] out@[i]).name == self.index@[i].manifest.name
                        && out@[i].version == self.index@[i].manifest.version && out@[i].description
                        == self.index@[i].manifest.description,
            decreases self.index.len() - at,
        {
            let manifest = &self.index[at].manifest;
            out.push(
                SkillInfo {
                    name: manifest.name.clone(),
                    version: manifest.version.copy(),
                    description: manifest.description.clone(),
                },
            );
            at += 1;
        }
        out
    }

    /// What has to be done to install a skill that has been read. An update needs
    /// one that is there already. The same version is never installed again, and
    /// an older one only by force.
    pub fn install(&self, manifest: &SkillManifest, force: bool, updating: bool) -> (step: InstallStep)
        ensures
            ({
                let name = manifest.name@;
                let target = joined(self.directory@, name + ".md"@);
                match skill_at(self.index@, name, 0) {
                    None => if updating {
                        step matches InstallStep::Refuse(SkillError::NotInstalledForUpdate(said))
                            && said@ == name
                    } else {
                        step matches InstallStep::Write { target: file, stale, outcome } && file@
                            == target && stale is None && outcome == (InstallOutcome::Installed {
                            name: manifest.name,
                            version: manifest.version,
                        })
                    },
                    Some(at) => match skip_reason(
                        manifest.version@,
                        self.index@[at].manifest.version@,
                        force,
                    ) {
                        Some(why) => step matches InstallStep::Skip(
                            InstallOutcome::Skipped { name: said, version, reason },
                        ) && said == manifest.name && version == manifest.version && reason@ == why,
                        None => step matches InstallStep::Write { target: file, stale, outcome }
                            && file@ == target && opt_text(stale) == (if self.index@[at].path@
                            == target {
                            None
                        } else {
                            Some(self.index@[at].path@)
                        }) && outcome == (InstallOutcome::Installed {
                            name: manifest.name,
                            version: manifest.version,
                        }),
                    },
                }
            }),
    {
        let mut file = manifest.name.clone();
        file.append(".md");
        let target = join_path(self.directory.as_str(), file.as_str());
        let outcome = InstallOutcome::Installed {
            name: manifest.name.clone(),
            version: manifest.version.copy(),
        };
        match holds_skill(&self.index, manifest.name.as_str()) {
            None => {
                proof {
                    lemma_skill_at_none(self.index@, manifest.name@, 0);
                }
                if updating {
                    InstallStep::Refuse(SkillError::NotInstalledForUpdate(manifest.name.clone()))
                } else {
                    InstallStep::Write { target, stale: None, outcome }
                }
            },
            Some(at) => {
                proof {
                    lemma_skill_at_is(self.index@, manifest.name@, 0, at as int);
                }
                let current = &self.index[at];
                if manifest.version.same(&current.manifest.version) {
                    return InstallStep::Skip(
                        InstallOutcome::Skipped {
                            name: manifest.name.clone(),
                            version: manifest.version.copy(),
                            reason: "同版本已安装".to_owned(),
                        },
                    );
                }
                if manifest.version.order(&current.manifest.version) < 0 && !force {
                    let mut reason = "已安装更高版本 ".to_owned();
                    reason.append(current.manifest.version.text().as_str());
                    reason.append("；降级需 --force");
                    return InstallStep::Skip(
                        InstallOutcome::Skipped {
                            name: manifest.name.clone(),
                            version: manifest.version.copy(),
                            reason,
                        },
                    );
                }
                let stale = if same_text(current.path.as_str(), target.as_str()) {
                    None
                } else {
                    Some(current.path.clone())
                };
                InstallStep::Write { target, stale, outcome }
            },
        }
    }

    /// Checks that a file that a skill is updated from is that skill.
    pub fn update(name: &str, manifest: &SkillManifest) -> (out: Result<(), SkillError>)
        ensures
            if !is_skill_name(name@) {
                out == Err::<(), SkillError>(SkillError::InvalidName)
            } else if manifest.name@ != name@ {
                out matches Err(SkillError::NameMismatch(wanted, said)) && wanted@ == name@ && said@
                    == manifest.name@
            } else {
                out is Ok
            },
    {
        if validate_name(name).is_err() {
            return Err(SkillError::InvalidName);
        }
        if !same_text(manifest.name.as_str(), name) {
            return Err(SkillError::NameMismatch(name.to_owned(), manifest.name.clone()));
        }
        Ok(())
    }

    /// The file that has to be removed to remove a skill, and what is said of it.
    /// Nothing is removed that is not confirmed.
    pub fn remove(&self, name: &str, confirmed: bool) -> (out: Result<(String, String), SkillError>)
        ensures
            if !is_skill_name(name@) {
                out == Err::<(String, String), SkillError>(SkillError::InvalidName)
            } else if !confirmed {
                out == Err::<(String, String), SkillError>(SkillError::NotConfirmed)
            } else {
                match skill_at(self.index@, name@, 0) {
                    Some(at) => out matches Ok((path, said)) && path == self.index@[at].path && said@
                        == "已删除 skill："@ + name@,
                    None => out matches Err(SkillError::NotInstalled(said)) && said@ == name@,
                }
            },
    {
        if validate_name(name).is_err() {
            return Err(SkillError::InvalidName);
        }
        if !confirmed {
            return Err(SkillError::NotConfirmed);
        }
        match holds_skill(&self.index, name) {
            Some(at) => {
                proof {
                    lemma_skill_at_is(self.index@, name@, 0, at as int);
                }
                let mut said = "已删除 skill：".to_owned();
                said.append(name);
                Ok((self.index[at].path.clone(), said))
            },
            None => {
                proof {
                    lemma_skill_at_none(self.index@, name@, 0);
                }
                Err(SkillError::NotInstalled(name.to_owned()))
            },
        }
    }
}

proof fn lemma_fitting_positions(
    skills: Seq<SkillIndex>,
    reads: Seq<Option<ParsedSkill>>,
    query: Seq<char>,
    n: int,
)
    requires
        0 <= n <= skills.len() <= usize::MAX,
    ensures
        forall|i: int|
            0 <= i < fitting(skills, reads, query, n).len() ==> (#[trigger] fitting(
                skills,
                reads,
                query,
                n,
            )[i]).at < n,
    decreases n,
{
    if n > 0 {
        lemma_fitting_positions(skills, reads, query, n - 1);
        let before = fitting(skills, reads, query, n - 1);
        assert forall|i: int| 0 <= i < fitting(skills, reads, query, n).len() implies (
        #[trigger] fitting(skills, reads, query, n)[i]).at < n by {
            if i < before.len() {
                assert(before[i].at < n - 1);
            }
        }
    }
}

proof fn lemma_ranked_positions(
    skills: Seq<SkillIndex>,
    reads: Seq<Option<ParsedSkill>>,
    query: Seq<char>,
)
    requires
        skills.len() <= usize::MAX,
    ensures
        forall|i: int|
            0 <= i < ranked(fitting(skills, reads, query, skills.len() as int)).len() ==> (
            #[trigger] ranked(fitting(skills, reads, query, skills.len() as int))[i]).at
                < skills.len(),
{
    let found = fitting(skills, reads, query, skills.len() as int);
    let order = ranked(found);
    lemma_fitting_positions(skills, reads, query, skills.len() as int);
    crate::order::lemma_ranked_permutes(found);
    assert forall|i: int| 0 <= i < order.len() implies (#[trigger] order[i]).at < skills.len() by {
        let item = order[i];
        assert(order.contains(item));
        assert(found.contains(item)) by {
            broadcast use vstd::seq_lib::group_to_multiset_ensures;

            assert(order.to_multiset().count(item) > 0);
            assert(found.to_multiset().count(item) > 0);
        }
        let k = choose|k: int| 0 <= k < found.len() && found[k] == item;
        assert(found[k].at < skills.len());
    }
}

/// Without force the version that is installed never goes down: what is written
/// over a skill is not below it.
pub proof fn law_installed_version_never_goes_down(
    version: (u64, u64, u64, Seq<char>, Seq<char>),
    current: (u64, u64, u64, Seq<char>, Seq<char>),
    force: bool,
)
    requires
        skip_reason(version, current, force) is None,
    ensures
        version != current,
        !force ==> semver_order(version, current) >= 0,
{
}

/// The best fit for a request comes first: scores never rise along the ranking.
pub proof fn law_skills_are_ranked_by_score(list: Seq<RankedSkill>, i: int, j: int)
    requires
        0 <= i < j < ranked(list).len(),
    ensures
        ranked(list)[i].score >= ranked(list)[j].score,
{
    lemma_score_order(list);
}

/// Among skills that fit equally well the higher version comes first, and among those of
/// equally high versions the order is that of their names.
pub proof fn law_equal_fits_are_ranked_by_version_and_name(list: Seq<RankedSkill>, i: int, j: int)
    requires
        in_rank_order(list),
        0 <= i < j < list.len(),
        list[i].score == list[j].score,
    ensures
        semver_order(list[i].version@, list[j].version@) >= 0,
        semver_order(list[i].version@, list[j].version@) == 0 ==> !text_before(
            list[j].name@,
            list[i].name@,
        ),
{
    assert(!list[j].before(&list[i]));
}

spec fn scores_fall(list: Seq<RankedSkill>) -> bool {
    forall|i: int, j: int|
        #![trigger list[i], list[j]]
        0 <= i < j < list.len() ==> list[i].score >= list[j].score
}

proof fn lemma_insert_scores(x: RankedSkill, list: Seq<RankedSkill>)
    requires
        scores_fall(list),
    ensures
        scores_fall(crate::order::insert_ranked(x, list)),
        forall|y: RankedSkill|
            #![trigger crate::order::insert_ranked(x, list).contains(y)]
            crate::order::insert_ranked(x, list).contains(y) ==> y == x || list.contains(y),
    decreases list.len(),
{
    let out = crate::order::insert_ranked(x, list);
    if list.len() == 0 {
    } else if list[0].before(&x) {
        let rest = list.skip(1);
        assert forall|i: int, j: int|
            #![trigger rest[i], rest[j]]
            0 <= i < j < rest.len() implies rest[i].score >= rest[j].score by {
            assert(list[i + 1].score >= list[j + 1].score);
        }
        lemma_insert_scores(x, rest);
        let tail = crate::order::insert_ranked(x, rest);
        assert forall|i: int, j: int|
            #![trigger out[i], out[j]]
            0 <= i < j < out.len() implies out[i].score >= out[j].score by {
            assert(out[j] == tail[j - 1]);
            if i > 0 {
                assert(out[i] == tail[i - 1]);
            } else {
                assert(tail.contains(out[j]));
                if out[j] != x {
                    let k = choose|k: int| 0 <= k < rest.len() && rest[k] == out[j];
                    assert(list[0].score >= list[k + 1].score);
                }
            }
        }
        assert forall|y: RankedSkill| #[trigger] out.contains(y) implies y == x || list.contains(y) by {
            let k = choose|k: int| 0 <= k < out.len() && out[k] == y;
            if k == 0 {
                assert(list[0] == y);
            } else {
                assert(tail[k - 1] == y);
                assert(tail.contains(y));
                if y != x {
                    let m = choose|m: int| 0 <= m < rest.len() && rest[m] == y;
                    assert(list[m + 1] == y);
                }
            }
        }
    } else {
        assert forall|i: int, j: int|
            #![trigger out[i], out[j]]
            0 <= i < j < out.len() implies out[i].score >= out[j].score by {
            assert(out[j] == list[j - 1]);
            if i > 0 {
                assert(out[i] == list[i - 1]);
            } else {
                assert(list[0].score >= list[j - 1].score);
            }
        }
        assert forall|y: RankedSkill| #[trigger] out.contains(y) implies y == x || list.contains(y) by {
            let k = choose|k: int| 0 <= k < out.len() && out[k] == y;
            if k > 0 {
                assert(list[k - 1] == y);
            }
        }
    }
}

proof fn lemma_score_order(list: Seq<RankedSkill>)
    ensures
        scores_fall(ranked(list)),
    decreases list.len(),
{
    if list.len() > 0 {
        lemma_score_order(list.skip(1));
        lemma_insert_scores(list[0], ranked(list.skip(1)));
    }
}

/// A share is at most the whole.
proof fn lemma_share_is_a_part(text: Seq<char>, query: Seq<char>, scale: nat)
    requires
        scale > 0,
    ensures
        share(text, query, scale) <= scale,
{
    let own = skill_terms(text);
    let common = own.intersect(skill_terms(query));
    lemma_skill_terms_finite(text);
    vstd::set_lib::lemma_len_intersect(own, skill_terms(query));
    let part = capped_product(common.len(), scale);
    let whole: nat = if own.len() > 1 {
        own.len()
    } else {
        1
    };
    assert(part <= common.len() * scale);
    assert(common.len() * scale <= whole * scale) by (nonlinear_arith)
        requires
            common.len() <= whole,
    ;
    assert(part / whole <= scale) by (nonlinear_arith)
        requires
            part <= whole * scale,
            whole > 0,
    ;
}

/// A request that calls for more of a skill's keywords fits it better, whatever
/// words it shares with another: the scores say so until they reach the largest
/// number that there is.
pub proof fn law_keywords_outweigh_shared_words(
    a: SkillIndex,
    b: SkillIndex,
    body_a: Option<Seq<char>>,
    body_b: Option<Seq<char>>,
    query: Seq<char>,
)
    requires
        keyword_hits(texts(a.manifest.keywords@), query) > keyword_hits(
            texts(b.manifest.keywords@),
            query,
        ),
    ensures
        skill_score(a, body_a, query) > skill_score(b, body_b, query) || skill_score(
            a,
            body_a,
            query,
        ) == u64::MAX,
{
    lemma_share_is_a_part(metadata(b), query, 100);
    if let Some(body) = body_b {
        lemma_share_is_a_part(body, query, 10);
    }
}

/// Checks that the source of a skill lies in the workspace, both without links and dots.
pub fn resolve_source(resolved: &str, workspace: &str) -> (out: Result<(), SkillError>)
    ensures
        if is_within(resolved@, workspace@) {
            out is Ok
        } else {
            out matches Err(SkillError::OutsideWorkspace(path)) && path@ == resolved@
        },
{
    if lies_within(resolved, workspace) {
        Ok(())
    } else {
        Err(SkillError::OutsideWorkspace(resolved.to_owned()))
    }
}

/// What the source of a skill is.
#[derive(Debug)]
pub enum SourceKind {
    File,
    /// A directory with these files.
    Directory(Vec<String>),
    Neither,
}

/// The files from which skills are installed: the source itself, or the Markdown files in
/// it.
pub fn checked_sources(source: &str, kind: SourceKind) -> (out: Result<Vec<String>, SkillError>)
    ensures
        match kind {
            SourceKind::File => if is_markdown_path(source@) {
                out matches Ok(files) && texts(files@) == seq![source@]
            } else {
                out matches Err(SkillError::NotMarkdown(path)) && path@ == source@
            },
            SourceKind::Directory(paths) => {
                let found = first_files(ranked(markdown_paths(paths@)));
                if found.len() == 0 {
                    out matches Err(SkillError::NoMarkdown(path)) && path@ == source@
                } else {
                    out matches Ok(files) && files@ == found
                }
            },
            SourceKind::Neither => out matches Err(SkillError::NoSource(path)) && path@ == source@,
        },
{
    match kind {
        SourceKind::File => {
            if !is_markdown(source) {
                return Err(SkillError::NotMarkdown(source.to_owned()));
            }
            let mut files: Vec<String> = Vec::new();
            files.push(source.to_owned());
            assert(texts(files@) =~= seq![source@]);
            Ok(files)
        },
        SourceKind::Directory(paths) => {
            let files = pick_skill_files(paths);
            if files.len() == 0 {
                return Err(SkillError::NoMarkdown(source.to_owned()));
            }
            Ok(files)
        },
        SourceKind::Neither => Err(SkillError::NoSource(source.to_owned())),
    }
}

/// Checks that a file lies right in the directory for skills: by the directory that it
/// lies in and the one for skills, both without links and dots.
pub fn ensure_inside(path: &str, parent: &str, directory: &str) -> (out: Result<(), SkillError>)
    ensures
        if parent@ == directory@ {
            out is Ok
        } else {
            out matches Err(SkillError::OutsideDirectory(said)) && said@ == path@
        },
{
    if same_text(parent, directory) {
        Ok(())
    } else {
        Err(SkillError::OutsideDirectory(path.to_owned()))
    }
}

/// Where a skill is written before it takes its place: beside it, under a name that no
/// skill has.
pub open spec fn temporary_file(directory: Seq<char>, name: Seq<char>, process: nat) -> Seq<char> {
    joined(directory, "."@ + name + ".tmp-"@ + decimal(process))
}

/// Where a skill is written before it takes its place.
pub fn temporary_path(directory: &str, name: &str, process: u32) -> (path: String)
    ensures
        path@ == temporary_file(directory@, name@, process as nat),
{
    let mut file = ".".to_owned();
    file.append(name);
    file.append(".tmp-");
    file.append(decimal_text(process as u128).as_str());
    join_path(directory, file.as_str())
}

/// The name of a skill is made of letters, digits, hyphens and underscores, at least one.
pub proof fn law_skill_names_are_plain_words(name: Seq<char>)
    ensures
        is_skill_name(name) <==> name.len() > 0 && forall|i: int|
            0 <= i < name.len() ==> {
                let c = #[trigger] name[i];
                'a' <= c <= 'z' || 'A' <= c <= 'Z' || '0' <= c <= '9' || c == '-' || c == '_'
            },
{
    if is_skill_name(name) {
        assert forall|i: int| 0 <= i < name.len() implies {
            let c = #[trigger] name[i];
            'a' <= c <= 'z' || 'A' <= c <= 'Z' || '0' <= c <= '9' || c == '-' || c == '_'
        } by {}
    } else if name.len() > 0 {
        let i = choose|i: int|
            0 <= i < name.len() && !(is_ascii_word(#[trigger] name[i]) || name[i] == '-' || name[i]
                == '_');
        let c = name[i];
        assert(!('a' <= c <= 'z' || 'A' <= c <= 'Z' || '0' <= c <= '9' || c == '-' || c == '_'));
    }
}

/// A manifest is good exactly where its name is one for a skill and its description, its
/// keywords and its scopes all hold some text.
pub proof fn law_manifests_are_filled_in(manifest: SkillManifest)
    ensures
        manifest_error(manifest) is None <==> {
            &&& is_skill_name(manifest.name@)
            &&& !is_blank_text(manifest.description@)
            &&& forall|i: int|
                0 <= i < manifest.keywords@.len() ==> !is_blank_text(
                    (#[trigger] manifest.keywords@[i])@,
                )
            &&& forall|i: int|
                0 <= i < manifest.scope@.len() ==> !is_blank_text((#[trigger] manifest.scope@[i])@)
        },
{
    let keywords = texts(manifest.keywords@);
    let scope = texts(manifest.scope@);
    if any_blank(keywords) {
        let i = choose|i: int| 0 <= i < keywords.len() && is_blank_text(#[trigger] keywords[i]);
        assert(manifest.keywords@[i]@ == keywords[i]);
    } else {
        assert forall|i: int| 0 <= i < manifest.keywords@.len() implies !is_blank_text(
            (#[trigger] manifest.keywords@[i])@,
        ) by {
            assert(keywords[i] == manifest.keywords@[i]@);
        }
    }
    if any_blank(scope) {
        let i = choose|i: int| 0 <= i < scope.len() && is_blank_text(#[trigger] scope[i]);
        assert(manifest.scope@[i]@ == scope[i]);
    } else {
        assert forall|i: int| 0 <= i < manifest.scope@.len() implies !is_blank_text(
            (#[trigger] manifest.scope@[i])@,
        ) by {
            assert(scope[i] == manifest.scope@[i]@);
        }
    }
}

/// A carriage return before a line feed is taken away, and nothing else.
pub proof fn law_line_endings_are_made_plain(a: Seq<char>, b: Seq<char>)
    ensures
        !a.contains('\r') ==> plain_endings(a) == a,
        plain_endings(seq!['\r', '\n'] + b) == seq!['\n'] + plain_endings(b),
        !(a.len() > 0 && a.last() == '\r' && b.len() > 0 && b[0] == '\n') ==> plain_endings(a + b)
            == plain_endings(a) + plain_endings(b),
    decreases a.len(),
{
    let ending = seq!['\r', '\n'];
    assert((ending + b).skip(2) =~= b);
    assert((ending + b)[0] == '\r' && (ending + b)[1] == '\n');
    if a.len() == 0 {
        assert(a + b =~= b);
        assert(plain_endings(a) =~= a);
        assert(plain_endings(a + b) =~= plain_endings(a) + plain_endings(b));
    } else if a.len() >= 2 && a[0] == '\r' && a[1] == '\n' {
        let rest = a.skip(2);
        law_line_endings_are_made_plain(rest, b);
        assert((a + b).skip(2) =~= rest + b);
        assert(a.contains(a[0]));
        assert(plain_endings(a + b) =~= seq!['\n'] + plain_endings(rest + b));
        assert(rest.len() > 0 ==> rest.last() == a.last());
        if !(a.last() == '\r' && b.len() > 0 && b[0] == '\n') {
            assert(plain_endings(a + b) =~= plain_endings(a) + plain_endings(b));
        }
    } else {
        let rest = a.skip(1);
        law_line_endings_are_made_plain(rest, b);
        assert((a + b).skip(1) =~= rest + b);
        assert(rest.len() > 0 ==> rest.last() == a.last());
        if !a.contains('\r') {
            assert forall|i: int| 0 <= i < rest.len() implies rest[i] != '\r' by {
                assert(a.contains(a[i + 1]));
            }
            assert(plain_endings(a) =~= a);
        }
        if !(a.last() == '\r' && b.len() > 0 && b[0] == '\n') {
            if rest.len() == 0 {
                assert(rest + b =~= b);
                assert(plain_endings(rest) =~= Seq::empty());
            }
            assert(plain_endings(a + b) =~= seq![a[0]] + plain_endings(rest + b));
            assert(plain_endings(a + b) =~= plain_endings(a) + plain_endings(b));
        }
    }
}

/// The manifest of a skill stands between its first line and the next line of hyphens; the
/// rest is its body. Together they make the whole text.
pub proof fn law_skill_file_is_manifest_and_body(text: Seq<char>)
    ensures
        skill_parts(text) matches Ok((front, body)) ==> plain_endings(text) == "---\n"@ + front
            + "\n---\n"@ + body && !contains_text(front, "\n---\n"@),
        skill_parts(text) matches Err(error) ==> (error == SkillError::MissingStart || error
            == SkillError::MissingEnd),
        skill_parts(text) == Err::<(Seq<char>, Seq<char>), SkillError>(SkillError::MissingStart)
            <==> !crate::text::begins_with(plain_endings(text), "---\n"@),
{
    let plain = plain_endings(text);
    let open = "---\n"@;
    let close = "\n---\n"@;
    if let Some(rest) = after_prefix(plain, open) {
        crate::text::law_prefix_and_rest_make_the_text(plain, open, rest);
        crate::text::lemma_first_at(rest, close, 0);
        if let Some(at) = first_at(rest, close, 0) {
            let front = rest.take(at);
            let body = rest.skip(at + close.len());
            assert(rest =~= front + close + body);
            assert(plain =~= open + front + close + body);
            if contains_text(front, close) {
                let k = choose|k: int| crate::text::occurs_at(front, close, k);
                reveal_strlit("\n---\n");
                assert(close.len() == 5);
                assert(rest.subrange(k, k + close.len()) =~= front.subrange(k, k + close.len()));
                assert(crate::text::occurs_at(rest, close, k));
            }
        }
    }
}

/// A text that is a manifest and a body is taken apart into them.
pub proof fn law_manifest_and_body_are_found(text: Seq<char>, front: Seq<char>, body: Seq<char>)
    requires
        plain_endings(text) == "---\n"@ + front + "\n---\n"@ + body,
        forall|i: int|
            0 <= i < front.len() ==> !#[trigger] crate::text::occurs_at(
                front + "\n---\n"@ + body,
                "\n---\n"@,
                i,
            ),
    ensures
        skill_parts(text) == Ok::<(Seq<char>, Seq<char>), SkillError>((front, body)),
{
    let plain = plain_endings(text);
    let open = "---\n"@;
    let close = "\n---\n"@;
    let rest = front + close + body;
    assert(plain =~= open + rest);
    crate::text::law_prefix_and_rest_make_the_text(plain, open, rest);
    let at = front.len() as int;
    assert(rest.subrange(at, at + close.len()) =~= close);
    crate::text::lemma_first_at(rest, close, 0);
    assert(crate::text::occurs_at(rest, close, at));
    assert(first_at(rest, close, 0) == Some(at));
    assert(rest.take(at) =~= front);
    assert(rest.skip(at + close.len()) =~= body);
}

/// The summary is the first line with text that is no heading, cut off behind two hundred
/// and forty characters.
pub proof fn law_summary_is_the_first_line_of_prose(body: Seq<char>, i: int)
    requires
        0 <= i < lines(body).len(),
        trim(lines(body)[i]).len() > 0,
        trim(lines(body)[i])[0] != '#',
        forall|k: int|
            0 <= k < i ==> trim(#[trigger] lines(body)[k]).len() == 0 || trim(lines(body)[k])[0]
                == '#',
    ensures
        trim(lines(body)[i]).len() <= 240 ==> summary_of(body) == trim(lines(body)[i]),
        trim(lines(body)[i]).len() > 240 ==> summary_of(body) == trim(lines(body)[i]).take(240),
{
    lemma_first_prose_is(lines(body), 0, i);
}

proof fn lemma_first_prose_is(list: Seq<Seq<char>>, from: int, i: int)
    requires
        0 <= from <= i < list.len(),
        trim(list[i]).len() > 0,
        trim(list[i])[0] != '#',
        forall|k: int|
            0 <= k < i ==> trim(#[trigger] list[k]).len() == 0 || trim(list[k])[0] == '#',
    ensures
        first_prose(list, from) == Some(trim(list[i])),
    decreases i - from,
{
    if from < i {
        assert(trim(list[from]).len() == 0 || trim(list[from])[0] == '#');
        lemma_first_prose_is(list, from + 1, i);
    }
}

/// The extension of a name is what stands behind its last dot; a name without a dot behind
/// its first character has none.
pub proof fn law_extension_stands_behind_the_last_dot(stem: Seq<char>, extension: Seq<char>)
    requires
        stem.len() > 0,
        !extension.contains('.'),
    ensures
        extension_of(stem + seq!['.'] + extension) == Some(extension),
        extension_of(extension) is None,
{
    let name = stem + seq!['.'] + extension;
    let dot = stem.len() as int;
    assert forall|i: int| dot < i < name.len() implies #[trigger] name[i] != '.' by {
        assert(extension.contains(extension[i - dot - 1]));
    }
    lemma_extension(name, dot);
    assert(name.skip(dot + 1) =~= extension);
    assert forall|i: int| 0 < i < extension.len() implies #[trigger] extension[i] != '.' by {
        assert(extension.contains(extension[i]));
    }
    lemma_no_extension(extension);
}

/// Of some paths all Markdown files are kept, in their order, and of those the first
/// sixty-four.
pub proof fn law_all_markdown_files_are_looked_at(paths: Seq<String>)
    ensures
        markdown_paths(paths) == paths.filter(|path: String| is_markdown_path(path@)),
        paths.len() <= 64 ==> first_files(paths) == paths,
        paths.len() > 64 ==> first_files(paths) == paths.take(64),
    decreases paths.len(),
{
    reveal(Seq::filter);
    if paths.len() > 0 {
        law_all_markdown_files_are_looked_at(paths.drop_last());
    }
    assert(markdown_paths(paths) =~= paths.filter(|path: String| is_markdown_path(path@)));
}

/// Every skill that could be read is in the index, by its name.
pub proof fn law_every_readable_skill_is_indexed(
    skills: Seq<SkillIndex>,
    files: Seq<SkillFile>,
    n: int,
    i: int,
)
    requires
        is_index(skills, files, n),
        0 <= i < n <= files.len(),
        files[i].skill is Some,
    ensures
        exists|k: int|
            0 <= k < skills.len() && (#[trigger] skills[k]).manifest.name@ == (
            files[i].skill->0).manifest.name@,
    decreases n,
{
    match files[n - 1].skill {
        None => {
            law_every_readable_skill_is_indexed(skills, files, n - 1, i);
        },
        Some(parsed) => {
            if has_skill(skills, parsed.manifest.name@) && is_index(skills, files, n - 1) {
                if i < n - 1 {
                    law_every_readable_skill_is_indexed(skills, files, n - 1, i);
                }
            } else {
                let front = skills.drop_last();
                if i < n - 1 {
                    law_every_readable_skill_is_indexed(front, files, n - 1, i);
                    let k = choose|k: int|
                        0 <= k < front.len() && (#[trigger] front[k]).manifest.name@ == (
                        files[i].skill->0).manifest.name@;
                    assert(skills[k] == front[k]);
                } else {
                    assert(skills[skills.len() - 1].manifest == parsed.manifest);
                }
            }
        },
    }
}

/// What the index holds of a skill comes from the first file with its name: the manifest,
/// the path, and the summary of the body.
pub proof fn law_index_shows_the_first_file_of_a_name(
    skills: Seq<SkillIndex>,
    files: Seq<SkillFile>,
    n: int,
    k: int,
)
    requires
        is_index(skills, files, n),
        0 <= n <= files.len(),
        0 <= k < skills.len(),
    ensures
        exists|i: int|
            {
                &&& 0 <= i < n
                &&& (#[trigger] files[i]).skill is Some
                &&& skills[k].manifest == (files[i].skill->0).manifest
                &&& skills[k].path == files[i].path
                &&& skills[k].summary@ == summary_of((files[i].skill->0).body@)
                &&& forall|j: int|
                    0 <= j < i && (#[trigger] files[j]).skill is Some ==> (
                    files[j].skill->0).manifest.name@ != skills[k].manifest.name@
            },
    decreases n,
{
    if n > 0 {
        match files[n - 1].skill {
            None => {
                law_index_shows_the_first_file_of_a_name(skills, files, n - 1, k);
            },
            Some(parsed) => {
                if has_skill(skills, parsed.manifest.name@) && is_index(skills, files, n - 1) {
                    law_index_shows_the_first_file_of_a_name(skills, files, n - 1, k);
                } else {
                    let front = skills.drop_last();
                    if k < front.len() {
                        law_index_shows_the_first_file_of_a_name(front, files, n - 1, k);
                        assert(skills[k] == front[k]);
                    } else {
                        assert(files[n - 1].skill is Some);
                        assert forall|j: int| 0 <= j < n - 1 && (
                        #[trigger] files[j]).skill is Some implies (
                        files[j].skill->0).manifest.name@ != skills[k].manifest.name@ by {
                            law_every_readable_skill_is_indexed(front, files, n - 1, j);
                            let m = choose|m: int|
                                0 <= m < front.len() && (#[trigger] front[m]).manifest.name@ == (
                                files[j].skill->0).manifest.name@;
                            assert(front[m].manifest.name@ != parsed.manifest.name@);
                        }
                    }
                }
            },
        }
    }
}

/// As many keywords count as are hit, each once, and a keyword is hit wherever it stands in
/// the request in any case of letters.
pub proof fn law_hit_keywords_are_counted(
    keywords: Seq<Seq<char>>,
    query: Seq<char>,
    keyword: Seq<char>,
)
    ensures
        keyword_hits(keywords, query) == keywords.filter(
            |keyword: Seq<char>| keyword_hit(keyword, query),
        ).len(),
        contains_text(lowercase(query), lowercase(keyword)) ==> keyword_hit(keyword, query),
        skill_terms(query).contains(lowercase(keyword)) ==> keyword_hit(keyword, query),
        keyword_hit(keyword, query) ==> contains_text(lowercase(query), lowercase(keyword))
            || skill_terms(query).contains(lowercase(keyword)),
    decreases keywords.len(),
{
    reveal(Seq::filter);
    if keywords.len() > 0 {
        law_hit_keywords_are_counted(keywords.drop_last(), query, keyword);
    }
}

/// A request that knows more of a text's words never counts less, and one that knows them
/// all counts in full.
pub proof fn law_more_known_words_never_count_less(
    text: Seq<char>,
    less: Seq<char>,
    more: Seq<char>,
    scale: nat,
)
    requires
        skill_terms(text).intersect(skill_terms(less)).subset_of(
            skill_terms(text).intersect(skill_terms(more)),
        ),
        0 < scale <= 1000,
    ensures
        share(text, less, scale) <= share(text, more, scale),
        share(text, more, scale) <= scale,
        skill_terms(text).subset_of(skill_terms(more)) && skill_terms(text).len() > 0
            && skill_terms(text).len() * scale <= u64::MAX ==> share(text, more, scale) == scale,
        skill_terms(text).disjoint(skill_terms(more)) ==> share(text, more, scale) == 0,
{
    let own = skill_terms(text);
    let a = own.intersect(skill_terms(less));
    let b = own.intersect(skill_terms(more));
    lemma_skill_terms_finite(text);
    lemma_skill_terms_finite(more);
    vstd::set_lib::lemma_len_intersect(own, skill_terms(more));
    vstd::set_lib::lemma_len_subset(a, b);
    lemma_share_is_a_part(text, more, scale);
    let whole: nat = if own.len() > 1 {
        own.len()
    } else {
        1
    };
    assert(a.len() * scale <= b.len() * scale) by (nonlinear_arith)
        requires
            a.len() <= b.len(),
    ;
    let x = capped_product(a.len(), scale);
    let y = capped_product(b.len(), scale);
    assert(x <= y);
    assert(x / whole <= y / whole) by (nonlinear_arith)
        requires
            x <= y,
            whole > 0,
    ;
    if own.subset_of(skill_terms(more)) && own.len() > 0 && own.len() * scale <= u64::MAX {
        assert(b =~= own);
        assert(y == own.len() * scale);
        assert(whole == own.len());
        vstd::arithmetic::div_mod::lemma_div_multiples_vanish(scale as int, whole as int);
        assert(whole * scale == own.len() * scale);
    }
    if own.disjoint(skill_terms(more)) {
        assert(b =~= Set::empty());
        assert(0 * scale == 0) by (nonlinear_arith);
        assert(0nat / whole == 0) by (nonlinear_arith)
            requires
                whole > 0,
        ;
    }
}

/// A skill fits a request where the request hits a keyword or knows enough of the skill's
/// words; a keyword counts ten thousand, the words at most a hundred, those of the body at
/// most ten, and the body counts only where something else does.
pub proof fn law_score_counts_keywords_and_words(
    skill: SkillIndex,
    body: Option<Seq<char>>,
    query: Seq<char>,
)
    ensures
        ({
            let hits = keyword_hits(texts(skill.manifest.keywords@), query);
            let score = skill_score(skill, body, query);
            &&& hits * 10000 + 110 <= u64::MAX ==> hits * 10000 + share(
                metadata(skill),
                query,
                100,
            ) <= score <= hits * 10000 + share(metadata(skill), query, 100) + 10
            &&& hits > 0 ==> score >= 10000
            &&& body is None && hits * 10000 + 110 <= u64::MAX ==> score == hits * 10000 + share(
                metadata(skill),
                query,
                100,
            )
            &&& hits == 0 && skill_terms(metadata(skill)).disjoint(skill_terms(query)) ==> score
                == 0
            &&& hits > 0 && hits * 10000 + 110 <= u64::MAX && body is Some ==> score == hits * 10000
                + share(metadata(skill), query, 100) + share(body->0, query, 10)
        }),
{
    lemma_share_is_a_part(metadata(skill), query, 100);
    if let Some(body) = body {
        lemma_share_is_a_part(body, query, 10);
    }
    let own = skill_terms(metadata(skill));
    if own.disjoint(skill_terms(query)) {
        assert(own.intersect(skill_terms(query)) =~= Set::empty());
        let whole: nat = if own.len() > 1 {
            own.len()
        } else {
            1
        };
        assert(0nat / whole == 0) by (nonlinear_arith)
            requires
                whole > 0,
        ;
    }
}

/// What is said of a skill is its name, its description, its scopes and its summary.
pub proof fn law_metadata_says_name_description_scope_and_summary(skill: SkillIndex)
    ensures
        contains_text(metadata(skill), skill.manifest.name@),
        contains_text(metadata(skill), skill.manifest.description@),
        contains_text(metadata(skill), join_with(texts(skill.manifest.scope@), " "@)),
        contains_text(metadata(skill), skill.summary@),
{
    let whole = metadata(skill);
    let name = skill.manifest.name@;
    let about = skill.manifest.description@;
    let scope = join_with(texts(skill.manifest.scope@), " "@);
    let end = skill.summary@;
    let gap = " "@;
    assert(whole =~= Seq::empty() + name + (gap + about + gap + scope + gap + end));
    crate::text::law_text_contains_its_pieces(
        whole,
        Seq::empty(),
        name,
        gap + about + gap + scope + gap + end,
    );
    assert(whole =~= (name + gap) + about + (gap + scope + gap + end));
    crate::text::law_text_contains_its_pieces(
        whole,
        name + gap,
        about,
        gap + scope + gap + end,
    );
    assert(whole =~= (name + gap + about + gap) + scope + (gap + end));
    crate::text::law_text_contains_its_pieces(
        whole,
        name + gap + about + gap,
        scope,
        gap + end,
    );
    assert(whole =~= (name + gap + about + gap + scope + gap) + end + Seq::empty());
    crate::text::law_text_contains_its_pieces(
        whole,
        name + gap + about + gap + scope + gap,
        end,
        Seq::empty(),
    );
}

/// Every skill that fits a request at all is a candidate, with its score, its version and
/// its name, and no other is.
pub proof fn law_every_fitting_skill_is_a_candidate(
    skills: Seq<SkillIndex>,
    reads: Seq<Option<ParsedSkill>>,
    query: Seq<char>,
    n: int,
    i: int,
)
    requires
        0 <= i < n <= skills.len() <= usize::MAX,
        n <= reads.len(),
    ensures
        ({
            let found = fitting(skills, reads, query, n);
            let score = skill_score(
                skills[i],
                match reads[i] {
                    Some(parsed) => Some(parsed.body@),
                    None => None,
                },
                query,
            );
            score > 0 <==> exists|k: int|
                {
                    &&& 0 <= k < found.len()
                    &&& (#[trigger] found[k]).at == i
                    &&& found[k].score == score
                    &&& found[k].version == skills[i].manifest.version
                    &&& found[k].name == skills[i].manifest.name
                }
        }),
    decreases n,
{
    let found = fitting(skills, reads, query, n);
    let before = fitting(skills, reads, query, n - 1);
    lemma_fitting_positions(skills, reads, query, n - 1);
    let score = skill_score(skills[i], body_of(reads[i]), query);
    if i < n - 1 {
        law_every_fitting_skill_is_a_candidate(skills, reads, query, n - 1, i);
        if score > 0 {
            let k = choose|k: int|
                {
                    &&& 0 <= k < before.len()
                    &&& (#[trigger] before[k]).at == i
                    &&& before[k].score == score
                    &&& before[k].version == skills[i].manifest.version
                    &&& before[k].name == skills[i].manifest.name
                };
            assert(found[k] == before[k]);
        } else if exists|k: int|
            0 <= k < found.len() && (#[trigger] found[k]).at == i && found[k].score == score
                && found[k].version == skills[i].manifest.version && found[k].name
                == skills[i].manifest.name {
            let k = choose|k: int|
                0 <= k < found.len() && (#[trigger] found[k]).at == i && found[k].score == score
                    && found[k].version == skills[i].manifest.version && found[k].name
                    == skills[i].manifest.name;
            assert(k < before.len());
            assert(before[k].at == i);
        }
    } else if score > 0 {
        let k = before.len() as int;
        assert(found[k].at == i && found[k].score == score);
    } else if exists|k: int|
        0 <= k < found.len() && (#[trigger] found[k]).at == i && found[k].score == score {
        let k = choose|k: int| 0 <= k < found.len() && (#[trigger] found[k]).at == i;
        assert(found == before);
        assert(before[k].at < n - 1);
    }
}

/// The index has a line for every skill, with its name, its version and its description.
pub proof fn law_index_has_a_line_for_every_skill(
    skills: Seq<SkillIndex>,
    more: Seq<SkillIndex>,
    skill: SkillIndex,
)
    ensures
        index_lines(skills + more) == index_lines(skills) + index_lines(more),
        index_lines(seq![skill]) == "\n- "@ + skill.manifest.name@ + "@"@ + version_text(
            skill.manifest.version@,
        ) + "："@ + skill.manifest.description@,
    decreases more.len(),
{
    if more.len() == 0 {
        assert(skills + more =~= skills);
        assert(index_lines(skills + more) =~= index_lines(skills) + index_lines(more));
    } else {
        law_index_has_a_line_for_every_skill(skills, more.drop_last(), skill);
        assert((skills + more).drop_last() =~= skills + more.drop_last());
        assert((skills + more).last() == more.last());
        assert(index_lines(skills + more) =~= index_lines(skills) + index_lines(more));
    }
    assert(seq![skill].drop_last() =~= Seq::empty());
    assert(seq![skill].last() == skill);
    assert(index_lines(Seq::empty()) == Seq::<char>::empty());
    assert(index_lines(seq![skill]) =~= "\n- "@ + skill.manifest.name@ + "@"@ + version_text(
        skill.manifest.version@,
    ) + "："@ + skill.manifest.description@);
}

/// What the model is told of the skills starts with the whole index. It holds the bodies of
/// the best skills, up to the number allowed, that can still be read.
pub proof fn law_context_holds_the_index_and_the_best_bodies(
    skills: Seq<SkillIndex>,
    reads: Seq<Option<ParsedSkill>>,
    query: Seq<char>,
    max_matches: nat,
    i: int,
)
    ensures
        ({
            let order = ranked(fitting(skills, reads, query, skills.len() as int));
            let context = skill_context(skills, reads, query, max_matches);
            &&& context is Some <==> skills.len() > 0
            &&& skills.len() > 0 ==> crate::text::begins_with(
                context->0,
                "可用技能索引（仅结构化元数据）："@ + index_lines(skills),
            )
            &&& skills.len() > 0 && order.len() == 0 ==> context->0
                == "可用技能索引（仅结构化元数据）："@ + index_lines(skills)
            &&& skills.len() > 0 && 0 <= i < order.len() && i < max_matches
                && reads[order[i].at as int] is Some ==> contains_text(
                context->0,
                "\n"@ + (reads[order[i].at as int]->0).body@,
            )
        }),
{
    let order = ranked(fitting(skills, reads, query, skills.len() as int));
    let index = "可用技能索引（仅结构化元数据）："@ + index_lines(skills);
    if skills.len() > 0 {
        let context = skill_context(skills, reads, query, max_matches)->0;
        if order.len() == 0 {
            assert(context =~= index + Seq::empty());
            crate::text::law_prefix_and_rest_make_the_text(context, index, Seq::empty());
        } else {
            let n = if order.len() < max_matches {
                order.len() as int
            } else {
                max_matches as int
            };
            let head = "\n\n按当前请求命中的技能正文："@;
            let blocks = body_blocks(order, reads, n);
            assert(context =~= index + (head + blocks));
            crate::text::law_prefix_and_rest_make_the_text(context, index, head + blocks);
            if 0 <= i < order.len() && i < max_matches && reads[order[i].at as int] is Some {
                let body = "\n"@ + (reads[order[i].at as int]->0).body@;
                let (a, b) = lemma_body_in_blocks(order, reads, n, i);
                assert(context =~= (index + head + a) + body + b);
                crate::text::law_text_contains_its_pieces(context, index + head + a, body, b);
            }
        }
    }
}

proof fn lemma_body_in_blocks(
    order: Seq<RankedSkill>,
    reads: Seq<Option<ParsedSkill>>,
    n: int,
    i: int,
) -> (out: (Seq<char>, Seq<char>))
    requires
        0 <= i < n,
        reads[order[i].at as int] is Some,
    ensures
        body_blocks(order, reads, n) == out.0 + ("\n"@ + (reads[order[i].at as int]->0).body@)
            + out.1,
    decreases n,
{
    let before = body_blocks(order, reads, n - 1);
    let body = "\n"@ + (reads[order[i].at as int]->0).body@;
    if i < n - 1 {
        let (a, b) = lemma_body_in_blocks(order, reads, n - 1, i);
        match reads[order[n - 1].at as int] {
            Some(parsed) => {
                let more = "\n\n### "@ + label(parsed.manifest.name@, parsed.manifest.version@)
                    + "\n"@ + parsed.body@;
                assert(body_blocks(order, reads, n) =~= a + body + (b + more));
                (a, b + more)
            },
            None => (a, b),
        }
    } else {
        let parsed = reads[order[i].at as int]->0;
        let head = "\n\n### "@ + label(parsed.manifest.name@, parsed.manifest.version@);
        assert(body_blocks(order, reads, n) =~= (before + head) + body + Seq::empty());
        (before + head, Seq::empty())
    }
}

/// A skill is not installed again in the version that is there, nor in a lower one unless
/// that is forced; else it is.
pub proof fn law_skills_are_skipped_only_for_their_version(
    version: (u64, u64, u64, Seq<char>, Seq<char>),
    current: (u64, u64, u64, Seq<char>, Seq<char>),
    force: bool,
)
    ensures
        skip_reason(version, current, force) is Some <==> version == current || (semver_order(
            version,
            current,
        ) < 0 && !force),
{
}

/// A skill is found by its name exactly where one is there.
pub proof fn law_skills_are_found_by_name(skills: Seq<SkillIndex>, name: Seq<char>)
    ensures
        match skill_at(skills, name, 0) {
            Some(at) => 0 <= at < skills.len() && skills[at].manifest.name@ == name,
            None => forall|i: int|
                0 <= i < skills.len() ==> (#[trigger] skills[i]).manifest.name@ != name,
        },
{
    lemma_skill_found(skills, name, 0);
}

proof fn lemma_skill_found(skills: Seq<SkillIndex>, name: Seq<char>, from: int)
    requires
        0 <= from,
    ensures
        match skill_at(skills, name, from) {
            Some(at) => from <= at < skills.len() && skills[at].manifest.name@ == name,
            None => forall|i: int|
                from <= i < skills.len() ==> (#[trigger] skills[i]).manifest.name@ != name,
        },
    decreases skills.len() - from,
{
    if from < skills.len() && skills[from].manifest.name@ != name {
        lemma_skill_found(skills, name, from + 1);
    }
}

/// A request loads as many skills as the setting says, and three where it says nothing,
/// nothing readable or zero.
pub proof fn law_setting_says_how_many_skills_are_loaded(n: nat, text: Seq<char>)
    requires
        n <= usize::MAX,
    ensures
        max_matches_of(None) == 3,
        n > 0 ==> max_matches_of(Some(decimal(n))) == n,
        max_matches_of(Some(decimal(0))) == 3,
        parse_number(text, usize::MAX as nat) is None ==> max_matches_of(Some(text)) == 3,
{
    crate::number::lemma_parse_decimal(n, usize::MAX as nat);
    crate::number::lemma_parse_decimal(0, usize::MAX as nat);
}

/// A skill that is not there is written under its name, unless it was to be updated; one
/// that is there is replaced by another version where that is allowed, and its old file
/// goes.
pub proof fn law_skills_are_written_under_their_name(
    library: &SkillLibrary,
    manifest: &SkillManifest,
    force: bool,
    updating: bool,
    step: InstallStep,
)
    requires
        call_ensures(SkillLibrary::install, (library, manifest, force, updating), step),
    ensures
        ({
            let there = exists|i: int|
                0 <= i < library.index@.len() && (
                #[trigger] library.index@[i]).manifest.name@ == manifest.name@;
            &&& step is Refuse <==> !there && updating
            &&& step is Skip ==> there
            &&& step matches InstallStep::Write { target, stale, .. } ==> target@ == joined(
                library.directory@,
                manifest.name@ + ".md"@,
            ) && (stale matches Some(old) ==> there && old@ != target@)
            &&& !there && !updating ==> step is Write
        }),
        forall|i: int|
            0 <= i < library.index@.len() && (#[trigger] library.index@[i]).manifest.name@
                == manifest.name@ && step is Write ==> exists|k: int|
                0 <= k < library.index@.len() && (#[trigger] library.index@[k]).manifest.name@
                    == manifest.name@ && library.index@[k].manifest.version@ != manifest.version@
                    && (force || semver_order(
                    manifest.version@,
                    library.index@[k].manifest.version@,
                ) >= 0),
{
    law_skills_are_found_by_name(library.index@, manifest.name@);
    if let Some(at) = skill_at(library.index@, manifest.name@, 0) {
        assert(library.index@[at].manifest.name@ == manifest.name@);
        law_skills_are_skipped_only_for_their_version(
            manifest.version@,
            library.index@[at].manifest.version@,
            force,
        );
    }
}

/// A skill is updated only under its own name, and removed only where that is confirmed and
/// it is there; the file that goes is its own.
pub proof fn law_skills_are_updated_and_removed_by_name(
    library: &SkillLibrary,
    name: &str,
    manifest: &SkillManifest,
    confirmed: bool,
    update: Result<(), SkillError>,
    removal: Result<(String, String), SkillError>,
)
    requires
        call_ensures(SkillLibrary::update, (name, manifest), update),
        call_ensures(SkillLibrary::remove, (library, name, confirmed), removal),
    ensures
        update is Ok <==> is_skill_name(name@) && manifest.name@ == name@,
        removal is Ok <==> is_skill_name(name@) && confirmed && exists|i: int|
            0 <= i < library.index@.len() && (#[trigger] library.index@[i]).manifest.name@ == name@,
        removal matches Ok((path, _)) ==> exists|i: int|
            0 <= i < library.index@.len() && (#[trigger] library.index@[i]).manifest.name@ == name@
                && library.index@[i].path == path,
{
    law_skills_are_found_by_name(library.index@, name@);
    if let Some(at) = skill_at(library.index@, name@, 0) {
        assert(library.index@[at].manifest.name@ == name@);
    }
}

/// Skills are read only from within the workspace and written only into their directory.
pub proof fn law_skills_stay_within_their_places(
    resolved: &str,
    workspace: &str,
    source: Result<(), SkillError>,
    path: &str,
    parent: &str,
    directory: &str,
    target: Result<(), SkillError>,
)
    requires
        call_ensures(resolve_source, (resolved, workspace), source),
        call_ensures(ensure_inside, (path, parent, directory), target),
    ensures
        source is Ok <==> is_within(resolved@, workspace@),
        target is Ok <==> parent@ == directory@,
{
}

/// A skill is good exactly where its manifest is and its body holds some text; the body is
/// kept without the white space around it.
pub proof fn law_read_skill_keeps_manifest_and_body(
    manifest: SkillManifest,
    body: &str,
    out: Result<ParsedSkill, SkillError>,
)
    requires
        call_ensures(read_skill, (manifest, body), out),
    ensures
        out is Ok <==> manifest_error(manifest) is None && !is_blank_text(body@),
        out matches Ok(skill) ==> skill.manifest == manifest && skill.body@ == trim(body@),
{
}

/// Skills are taken from a Markdown file or from all those of a directory, in the order of
/// their names and sixty-four at most.
pub proof fn law_sources_are_markdown_files(
    source: &str,
    kind: SourceKind,
    out: Result<Vec<String>, SkillError>,
)
    requires
        call_ensures(checked_sources, (source, kind), out),
    ensures
        kind is File ==> (out is Ok <==> is_markdown_path(source@)),
        kind is File ==> (out matches Ok(files) ==> files@.len() == 1 && files@[0]@ == source@),
        kind is Neither ==> out is Err,
        kind matches SourceKind::Directory(paths) ==> (out is Ok <==> exists|i: int|
            0 <= i < paths@.len() && is_markdown_path((#[trigger] paths@[i])@)),
        kind matches SourceKind::Directory(paths) ==> (out matches Ok(files) ==> ({
            let all = ranked(paths@.filter(|path: String| is_markdown_path(path@)));
            files@ == (if all.len() > 64 {
                all.take(64)
            } else {
                all
            })
        })),
{
    if let SourceKind::Directory(paths) = kind {
        law_all_markdown_files_are_looked_at(paths@);
        let found = markdown_paths(paths@);
        crate::order::lemma_ranked_permutes(found);
        law_all_markdown_files_are_looked_at(ranked(found));
        lemma_some_markdown(paths@);
    }
    if kind is File {
        if let Ok(files) = out {
            assert(texts(files@).len() == files@.len());
            assert(texts(files@).len() == seq![source@].len() ==> texts(files@)[0]
                == files@[0]@);
        }
    }
}

proof fn lemma_some_markdown(paths: Seq<String>)
    ensures
        markdown_paths(paths).len() > 0 <==> exists|i: int|
            0 <= i < paths.len() && is_markdown_path((#[trigger] paths[i])@),
    decreases paths.len(),
{
    if paths.len() > 0 {
        let front = paths.drop_last();
        lemma_some_markdown(front);
        if markdown_paths(front).len() > 0 {
            let i = choose|i: int| 0 <= i < front.len() && is_markdown_path((#[trigger] front[i])@);
            assert(paths[i] == front[i]);
        }
        if exists|i: int| 0 <= i < paths.len() && is_markdown_path((#[trigger] paths[i])@) {
            let i = choose|i: int| 0 <= i < paths.len() && is_markdown_path((#[trigger] paths[i])@);
            if i < front.len() {
                assert(front[i] == paths[i]);
            }
        }
        assert(paths[paths.len() - 1] == paths.last());
    }
}

/// A version is written as its three numbers with dots between, with what comes before a
/// release behind a hyphen and its build behind a plus sign, where it has them; a skill is
/// labelled with it.
pub proof fn law_versions_are_written_in_full(
    numbers: (u64, u64, u64),
    pre: Seq<char>,
    build: Seq<char>,
    name: Seq<char>,
)
    ensures
        ({
            let plain = decimal(numbers.0 as nat) + "."@ + decimal(numbers.1 as nat) + "."@
                + decimal(numbers.2 as nat);
            let version = (numbers.0, numbers.1, numbers.2, pre, build);
            &&& pre.len() == 0 && build.len() == 0 ==> version_text(version) == plain
            &&& pre.len() > 0 && build.len() == 0 ==> version_text(version) == plain + ("-"@ + pre)
            &&& pre.len() == 0 && build.len() > 0 ==> version_text(version) == plain + ("+"@
                + build)
            &&& pre.len() > 0 && build.len() > 0 ==> version_text(version) == plain + ("-"@ + pre)
                + ("+"@ + build)
            &&& label(name, version) == name + "@"@ + version_text(version)
        }),
{
    let plain = decimal(numbers.0 as nat) + "."@ + decimal(numbers.1 as nat) + "."@ + decimal(
        numbers.2 as nat,
    );
    assert(plain + Seq::empty() =~= plain);
    assert(plain + ("-"@ + pre) + Seq::empty() =~= plain + ("-"@ + pre));
}

/// A file of more than sixty-four kilobytes is no skill, nor is one that is not text; the
/// parts of any other are those of its text.
pub proof fn law_skill_files_are_short_texts(bytes: Seq<u8>)
    ensures
        bytes.len() > 65536 ==> skill_file_parts(bytes) == Err::<
            (Seq<char>, Seq<char>),
            SkillError,
        >(SkillError::TooLarge),
        bytes.len() <= 65536 && !valid_utf8(bytes) ==> skill_file_parts(bytes) == Err::<
            (Seq<char>, Seq<char>),
            SkillError,
        >(SkillError::NotUtf8),
        bytes.len() <= 65536 && valid_utf8(bytes) ==> skill_file_parts(bytes) == skill_parts(
            decode_utf8(bytes),
        ),
{
}

} // verus!

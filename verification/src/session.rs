//! Conversations kept as one record per line, and the list of them.
use vstd::prelude::*;
use vstd::utf8::*;

use crate::number::{decimal, decimal_text};
use crate::order::{
    is_text_before, lemma_compared_views, lemma_ranked_in_order, lemma_ranked_permutes,
    lemma_ranked_views, lemma_text_before_total, lemma_text_before_transitive, ranked, stable_sort,
    text_before, views_of, Ranked, Sortable, TotallyRanked,
};
use crate::outside::{lossy_text, text_from_utf8_lossy};
use crate::path::{file_name, file_name_of, join_path, joined};
use crate::provider::Message;
use crate::records::{first_broken, readable, records_before, restore};
use crate::text::{
    begins_with, in_line, is_blank, is_blank_text, lemma_bytes_of_both, lemma_last_byte,
    lemma_run_len, lemma_run_len_is, lines, opt_str, opt_text, run_len, same_text, split_lines,
    starts_with, texts, without_return,
};

verus! {

/// Why a conversation could not be read.
#[derive(Clone, Debug, PartialEq, Eq)]
pub enum SessionError {
    /// A line that holds no message, and what is wrong with it.
    CorruptLine { line: usize, source: String },
    /// The clock stands before the epoch.
    InvalidSystemTime,
}

impl SessionError {
    /// The error in words.
    pub fn message(&self) -> (text: String)
        ensures
            text@ == (match *self {
                SessionError::CorruptLine { line, source } => "session.jsonl 第 "@ + decimal(
                    line as nat,
                ) + " 行损坏: "@ + source@,
                SessionError::InvalidSystemTime => "系统时间早于 UNIX_EPOCH"@,
            }),
    {
        match self {
            SessionError::CorruptLine { line, source } => {
                let mut text = "session.jsonl 第 ".to_owned();
                text.append(decimal_text(*line as u128).as_str());
                text.append(" 行损坏: ");
                text.append(source.as_str());
                text
            },
            SessionError::InvalidSystemTime => "系统时间早于 UNIX_EPOCH".to_owned(),
        }
    }
}

/// What a session is doing.
#[derive(Clone, Copy, Debug, PartialEq, Eq, Structural)]
pub enum SessionStatus {
    Idle,
    Running,
    Waiting,
}

/// A session in the list of sessions.
#[derive(Clone, Debug, PartialEq, Eq)]
pub struct SessionInfo {
    pub id: String,
    pub path: String,
    pub active: bool,
    pub message_count: usize,
    pub modified_at: Option<u64>,
    pub preview: Option<String>,
    pub status: SessionStatus,
    pub active_requests: usize,
    pub updated_at: Option<u64>,
}

/// The mathematical value of a [`SessionInfo`].
pub struct SessionInfoView {
    pub id: Seq<char>,
    pub path: Seq<char>,
    pub active: bool,
    pub message_count: nat,
    pub modified_at: Option<u64>,
    pub preview: Option<Seq<char>>,
    pub status: SessionStatus,
    pub active_requests: nat,
    pub updated_at: Option<u64>,
}

impl View for SessionInfo {
    type V = SessionInfoView;

    open spec fn view(&self) -> SessionInfoView {
        SessionInfoView {
            id: self.id@,
            path: self.path@,
            active: self.active,
            message_count: self.message_count as nat,
            modified_at: self.modified_at,
            preview: opt_text(self.preview),
            status: self.status,
            active_requests: self.active_requests as nat,
            updated_at: self.updated_at,
        }
    }
}

/// The views of some sessions.
pub open spec fn info_views(infos: Seq<SessionInfo>) -> Seq<SessionInfoView> {
    Seq::new(infos.len(), |i: int| infos[i]@)
}

/// Whether one time is later than another; no time is earlier than any.
pub open spec fn later(a: Option<u64>, b: Option<u64>) -> bool {
    match (a, b) {
        (Some(a), Some(b)) => a > b,
        (Some(_), None) => true,
        _ => false,
    }
}

fn is_later(a: Option<u64>, b: Option<u64>) -> (out: bool)
    ensures
        out == later(a, b),
{
    match (a, b) {
        (Some(a), Some(b)) => a > b,
        (Some(_), None) => true,
        _ => false,
    }
}

/// The active session first, then by the time of the last change, the latest
/// first, then by id.
impl Ranked for SessionInfoView {
    open spec fn before(&self, other: &SessionInfoView) -> bool {
        if self.active != other.active {
            self.active
        } else if self.modified_at != other.modified_at {
            later(self.modified_at, other.modified_at)
        } else {
            text_before(self.id, other.id)
        }
    }
}

impl TotallyRanked for SessionInfoView {
    proof fn ranking_laws(a: &SessionInfoView, b: &SessionInfoView, c: &SessionInfoView) {
        lemma_text_before_total(a.id, b.id);
        lemma_text_before_total(b.id, c.id);
        lemma_text_before_total(a.id, c.id);
        if text_before(c.id, a.id) && text_before(a.id, b.id) {
            lemma_text_before_transitive(c.id, a.id, b.id);
        }
    }
}

impl Ranked for SessionInfo {
    open spec fn before(&self, other: &SessionInfo) -> bool {
        self@.before(&other@)
    }
}

impl Sortable for SessionInfo {
    fn is_before(&self, other: &SessionInfo) -> (before: bool) {
        proof {
            lemma_compared_views(*self, *other);
        }
        if self.active != other.active {
            self.active
        } else if is_later(self.modified_at, other.modified_at) {
            true
        } else if is_later(other.modified_at, self.modified_at) {
            false
        } else {
            is_text_before(self.id.as_str(), other.id.as_str())
        }
    }
}

/// In the list of sessions the active one comes first, and of two that are alike
/// in that the one that changed last. Every session is listed once.
pub proof fn law_sessions_are_listed_active_first(infos: Seq<SessionInfoView>, i: int, j: int)
    requires
        0 <= i < j < ranked(infos).len(),
    ensures
        ranked(infos)[j].active ==> ranked(infos)[i].active,
        ranked(infos)[i].active == ranked(infos)[j].active ==> !later(
            ranked(infos)[j].modified_at,
            ranked(infos)[i].modified_at,
        ),
        ranked(infos).to_multiset() == infos.to_multiset(),
{
    lemma_ranked_permutes(infos);
    lemma_ranked_in_order(infos);
    let list = ranked(infos);
    assert(!list[j].before(&list[i]));
}

/// The list of sessions sorted is the list of their views sorted.
pub proof fn lemma_ranked_infos(infos: Seq<SessionInfo>)
    ensures
        info_views(ranked(infos)) == ranked(info_views(infos)),
{
    lemma_ranked_views(infos);
    assert(views_of(infos) =~= info_views(infos));
    assert(info_views(ranked(infos)) =~= views_of(ranked(infos)));
}

/// How many lines hold something besides white space.
pub open spec fn filled_lines(list: Seq<Seq<char>>) -> nat
    decreases list.len(),
{
    if list.len() == 0 {
        0
    } else {
        filled_lines(list.drop_last()) + (if is_blank_text(list.last()) {
            0nat
        } else {
            1nat
        })
    }
}

/// How many lines of a text hold something besides white space.
pub fn count_filled_lines(text: &str) -> (count: usize)
    ensures
        count == filled_lines(lines(text@)),
{
    let list = split_lines(text);
    let mut count: usize = 0;
    let mut at: usize = 0;
    while at < list.len()
        invariant
            at <= list.len(),
            texts(list@) == lines(text@),
            count <= at,
            count == filled_lines(lines(text@).take(at as int)),
        decreases list.len() - at,
    {
        let ghost taken = lines(text@).take(at + 1);
        assert(taken.drop_last() =~= lines(text@).take(at as int));
        assert(taken.last() == list@[at as int]@);
        if !is_blank(list[at].as_str()) {
            count += 1;
        }
        at += 1;
    }
    assert(lines(text@).take(at as int) =~= lines(text@));
    count
}

/// A file in the directory of the sessions.
#[derive(Clone, Debug, PartialEq, Eq)]
pub struct SessionFile {
    pub name: String,
    pub path: String,
    pub bytes: Vec<u8>,
    /// The time of the last change, in seconds since the epoch.
    pub modified_at: Option<u64>,
    /// What the session begins with, for display.
    pub preview: Option<String>,
}

/// The session that a file holds.
pub open spec fn file_info(file: SessionFile, active_name: Seq<char>) -> SessionInfoView {
    SessionInfoView {
        id: file.name@,
        path: file.path@,
        active: file.name@ == active_name,
        message_count: filled_lines(lines(lossy_text(file.bytes@))),
        modified_at: file.modified_at,
        preview: opt_text(file.preview),
        status: SessionStatus::Idle,
        active_requests: 0,
        updated_at: file.modified_at,
    }
}

/// Whether a file holds a session: the active one, or one that was put aside.
pub open spec fn is_session_file(name: Seq<char>, active_name: Seq<char>) -> bool {
    name == active_name || begins_with(name, active_name + ".bak-"@)
}

/// The sessions among some files, in the order of the files.
pub open spec fn session_files(files: Seq<SessionFile>, active_name: Seq<char>) -> Seq<
    SessionInfoView,
>
    decreases files.len(),
{
    if files.len() == 0 {
        Seq::empty()
    } else if is_session_file(files.last().name@, active_name) {
        session_files(files.drop_last(), active_name).push(file_info(files.last(), active_name))
    } else {
        session_files(files.drop_last(), active_name)
    }
}

/// The lines of a file of records, and whether its last line has its line feed.
pub fn split_records(bytes: &Vec<u8>) -> (out: (Vec<String>, bool))
    ensures
        texts(out.0@) == lines(lossy_text(bytes@)),
        valid_utf8(bytes@) ==> texts(out.0@) == lines(decode_utf8(bytes@)),
        out.1 == (bytes@.len() == 0 || bytes@.last() == 10),
{
    let content = text_from_utf8_lossy(bytes.as_slice());
    let complete = bytes.len() == 0 || bytes[bytes.len() - 1] == 10;
    (split_lines(content.as_str()), complete)
}

/// The store of one session, and of those that were put aside beside it.
#[derive(Clone, Debug, PartialEq, Eq)]
pub struct SessionStore {
    path: String,
}

impl View for SessionStore {
    type V = Seq<char>;

    closed spec fn view(&self) -> Seq<char> {
        self.path@
    }
}

/// The name of the session in a file.
pub open spec fn session_name(path: Seq<char>) -> Seq<char> {
    match file_name_of(path) {
        Some(name) => name,
        None => "session.jsonl"@,
    }
}

impl SessionStore {
    /// The store that a setting asks for, below the workspace where the path is
    /// not absolute.
    pub fn from_env(workspace: &str, configured: Option<&str>) -> (store: SessionStore)
        ensures
            store@ == (match opt_str(configured) {
                Some(path) => joined(workspace@, path),
                None => joined(workspace@, ".my-agent/session.jsonl"@),
            }),
    {
        match configured {
            Some(path) => SessionStore { path: join_path(workspace, path) },
            None => SessionStore { path: join_path(workspace, ".my-agent/session.jsonl") },
        }
    }

    /// The store of the session in a file.
    pub fn new(path: &str) -> (store: SessionStore)
        ensures
            store@ == path@,
    {
        SessionStore { path: path.to_owned() }
    }

    /// The file of the session.
    pub fn path(&self) -> (path: &str)
        ensures
            path@ == self@,
    {
        self.path.as_str()
    }

    /// The name of the session: that of its file.
    pub fn current_id(&self) -> (id: String)
        ensures
            id@ == session_name(self@),
    {
        match file_name(self.path.as_str()) {
            Some(name) => name,
            None => "session.jsonl".to_owned(),
        }
    }

    /// The messages of a session: one for each filled line. A last line that holds
    /// no message is left out where its line feed is missing, since a crash cut it
    /// short; any other is an error.
    pub fn load(
        list: &Vec<String>,
        parsed: Vec<Result<Message, String>>,
        complete: bool,
    ) -> (out: Result<Vec<Message>, SessionError>)
        requires
            list@.len() == parsed@.len(),
        ensures
            ({
                let broken = first_broken(texts(list@), parsed@, 0);
                if readable(texts(list@), parsed@, !complete) {
                    out matches Ok(messages) && messages@ == records_before(
                        texts(list@),
                        parsed@,
                        broken,
                    )
                } else {
                    out matches Err(SessionError::CorruptLine { line, source }) && line == broken + 1
                        && parsed@[broken] == Err::<Message, String>(source)
                }
            }),
    {
        match restore(list, parsed, !complete) {
            Ok(messages) => Ok(messages),
            Err((line, source)) => Err(SessionError::CorruptLine { line, source }),
        }
    }

    /// A message as a record: its JSON text on a line of its own.
    pub fn append(line: &str) -> (record: String)
        ensures
            record@ == line@.push('\n'),
    {
        let mut record = line.to_owned();
        record.push('\n');
        record
    }

    /// The sessions among the files of the store's directory.
    pub fn list_sessions(&self, files: &Vec<SessionFile>) -> (out: Vec<SessionInfo>)
        ensures
            info_views(out@) == ranked(session_files(files@, session_name(self@))),
    {
        let active_name = self.current_id();
        let mut prefix = active_name.clone();
        prefix.append(".bak-");
        let mut found: Vec<SessionInfo> = Vec::new();
        let mut at: usize = 0;
        assert(info_views(found@) =~= session_files(files@.take(0), active_name@));
        while at < files.len()
            invariant
                at <= files.len(),
                prefix@ == active_name@ + ".bak-"@,
                info_views(found@) == session_files(files@.take(at as int), active_name@),
            decreases files.len() - at,
        {
            let file = &files[at];
            let ghost before = found@;
            assert(files@.take(at + 1).drop_last() =~= files@.take(at as int));
            let active = same_text(file.name.as_str(), active_name.as_str());
            if active || starts_with(file.name.as_str(), prefix.as_str()) {
                let content = text_from_utf8_lossy(file.bytes.as_slice());
                let info = SessionInfo {
                    id: file.name.clone(),
                    path: file.path.clone(),
                    active,
                    message_count: count_filled_lines(content.as_str()),
                    modified_at: file.modified_at,
                    preview: file.preview.clone(),
                    status: SessionStatus::Idle,
                    active_requests: 0,
                    updated_at: file.modified_at,
                };
                found.push(info);
                assert(info@ == file_info(*file, active_name@));
                assert(info_views(found@) =~= info_views(before).push(info@));
            }
            at += 1;
        }
        assert(files@.take(at as int) =~= files@);
        proof {
            lemma_ranked_infos(found@);
        }
        stable_sort(found)
    }

    /// The name under which a session is put aside.
    pub fn rotate_existing(&self, timestamp: u64) -> (name: String)
        ensures
            name@ == session_name(self@) + ".bak-"@ + decimal(timestamp as nat),
    {
        let mut name = self.current_id();
        name.append(".bak-");
        name.append(decimal_text(timestamp as u128).as_str());
        name
    }
}

/// A session that is put aside is still found in the list.
pub proof fn law_rotated_session_is_listed(path: Seq<char>, timestamp: u64)
    ensures
        is_session_file(session_name(path) + ".bak-"@ + decimal(timestamp as nat), session_name(path)),
{
    let name = session_name(path) + ".bak-"@ + decimal(timestamp as nat);
    let prefix = session_name(path) + ".bak-"@;
    assert(name.take(prefix.len() as int) =~= prefix);
}

/// A record that is appended to whole records is read back as the last line, and
/// the lines before it stay as they were.
pub proof fn law_appended_record_is_the_last_line(content: Seq<char>, line: Seq<char>)
    requires
        content.len() == 0 || content.last() == '\n',
        forall|i: int| 0 <= i < line.len() ==> #[trigger] line[i] != '\n',
        line.len() > 0 ==> line.last() != '\r',
    ensures
        lines(content + line.push('\n')) == lines(content).push(line),
    decreases content.len(),
{
    let all = content + line.push('\n');
    if content.len() == 0 {
        assert(all =~= line.push('\n'));
        assert forall|i: int| 0 <= i < line.len() implies in_line()(#[trigger] all[i]) by {
            assert(all[i] == line[i]);
        }
        lemma_run_len_is(all, in_line(), line.len());
        assert(all.take(line.len() as int) =~= line);
        let rest = all.skip(line.len() as int + 1);
        assert(rest.len() == 0);
        assert(lines(rest) =~= Seq::empty());
        assert(lines(content) =~= Seq::empty());
        assert(without_return(line) == line);
        assert(lines(all) == seq![line] + lines(rest));
        assert(lines(all) =~= lines(content).push(line));
    } else {
        let n = run_len(content, in_line());
        lemma_run_len(content, in_line());
        assert(n < content.len()) by {
            if n == content.len() {
                assert(in_line()(content[content.len() - 1]));
            }
        }
        assert forall|i: int| 0 <= i < n implies in_line()(#[trigger] all[i]) by {
            assert(all[i] == content[i]);
            assert(in_line()(content[i]));
        }
        assert(all[n as int] == content[n as int]);
        lemma_run_len_is(all, in_line(), n);
        let rest = content.skip(n as int + 1);
        assert(all.skip(n as int + 1) =~= rest + line.push('\n'));
        assert(all.take(n as int) =~= content.take(n as int));
        if rest.len() > 0 {
            assert(rest.last() == content.last());
        }
        law_appended_record_is_the_last_line(rest, line);
        assert(lines(all) =~= lines(content).push(line));
    }
}

/// What is loaded of a file whose lines were read as given, and whose last line has its
/// line feed; nothing where the file is broken.
pub open spec fn loaded(content: Seq<char>, parsed: Seq<Result<Message, String>>) -> Option<
    Seq<Message>,
> {
    if readable(lines(content), parsed, false) {
        Some(records_before(lines(content), parsed, first_broken(lines(content), parsed, 0)))
    } else {
        None
    }
}

/// Loading after an append gives the messages that were loaded before, and the new one
/// behind them. `line` is the JSON text of the new message, which is on one line.
pub proof fn law_appended_message_is_loaded(
    content: Seq<char>,
    parsed: Seq<Result<Message, String>>,
    line: Seq<char>,
    message: Message,
)
    requires
        content.len() == 0 || content.last() == '\n',
        parsed.len() == lines(content).len(),
        loaded(content, parsed) is Some,
        forall|i: int| 0 <= i < line.len() ==> #[trigger] line[i] != '\n',
        !is_blank_text(line),
        line.last() != '\r',
    ensures
        lines(content + line.push('\n')) == lines(content).push(line),
        loaded(content + line.push('\n'), parsed.push(Ok(message))) == Some(
            loaded(content, parsed)->0.push(message),
        ),
{
    law_appended_record_is_the_last_line(content, line);
    let list = lines(content);
    let all = list.push(line);
    let read = parsed.push(Ok::<Message, String>(message));
    lemma_same_first_broken(list, parsed, line, message, 0);
    lemma_same_records(list, parsed, line, message, list.len() as int);
    assert(all[list.len() as int] == line && read[list.len() as int] == Ok::<Message, String>(
        message,
    ));
    assert(first_broken(list, parsed, 0) == list.len());
}

proof fn lemma_same_first_broken(
    list: Seq<Seq<char>>,
    parsed: Seq<Result<Message, String>>,
    line: Seq<char>,
    message: Message,
    from: int,
)
    requires
        0 <= from <= list.len(),
        list.len() == parsed.len(),
        first_broken(list, parsed, from) == list.len(),
    ensures
        first_broken(list.push(line), parsed.push(Ok(message)), from) == list.len() + 1,
    decreases list.len() - from,
{
    let all = list.push(line);
    let read = parsed.push(Ok::<Message, String>(message));
    if from < list.len() {
        assert(all[from] == list[from] && read[from] == parsed[from]);
        lemma_same_first_broken(list, parsed, line, message, from + 1);
    } else {
        assert(read[from] == Ok::<Message, String>(message));
        assert(first_broken(all, read, from + 1) == all.len());
    }
}

proof fn lemma_same_records(
    list: Seq<Seq<char>>,
    parsed: Seq<Result<Message, String>>,
    line: Seq<char>,
    message: Message,
    n: int,
)
    requires
        n <= list.len(),
        list.len() == parsed.len(),
    ensures
        records_before(list.push(line), parsed.push(Ok(message)), n) == records_before(
            list,
            parsed,
            n,
        ),
    decreases n,
{
    if n > 0 {
        assert(list.push(line)[n - 1] == list[n - 1]);
        assert(parsed.push(Ok::<Message, String>(message))[n - 1] == parsed[n - 1]);
        lemma_same_records(list, parsed, line, message, n - 1);
    }
}

/// The bytes of a record behind those of a file of whole records are those of the text
/// with the record behind it.
pub proof fn law_appended_bytes_are_the_appended_text(bytes: Seq<u8>, record: Seq<char>)
    requires
        valid_utf8(bytes),
    ensures
        valid_utf8(bytes + encode_utf8(record)),
        decode_utf8(bytes + encode_utf8(record)) == decode_utf8(bytes) + record,
        bytes.len() > 0 && bytes.last() == 10 ==> decode_utf8(bytes).last() == '\n',
        bytes.len() == 0 ==> decode_utf8(bytes).len() == 0,
{
    let content = decode_utf8(bytes);
    decode_utf8_encode_utf8(bytes);
    lemma_bytes_of_both(content, record);
    encode_utf8_valid_utf8(content + record);
    encode_utf8_decode_utf8(content + record);
    if bytes.len() > 0 && bytes.last() == 10 {
        lemma_last_byte(content);
    }
}

/// As many messages are counted as there are lines with some text.
pub proof fn law_messages_are_counted_by_lines_with_text(list: Seq<Seq<char>>)
    ensures
        filled_lines(list) == list.filter(|line: Seq<char>| !is_blank_text(line)).len(),
    decreases list.len(),
{
    reveal(Seq::filter);
    if list.len() > 0 {
        law_messages_are_counted_by_lines_with_text(list.drop_last());
    }
}

/// The sessions of a directory are the file in use and those that were set aside from it,
/// all of them and no other files, in the order of the files.
pub proof fn law_all_session_files_are_listed(files: Seq<SessionFile>, active_name: Seq<char>)
    ensures
        session_files(files, active_name) == files.filter(
            |file: SessionFile|
                file.name@ == active_name || begins_with(file.name@, active_name + ".bak-"@),
        ).map_values(|file: SessionFile| file_info(file, active_name)),
    decreases files.len(),
{
    reveal(Seq::filter);
    if files.len() > 0 {
        law_all_session_files_are_listed(files.drop_last(), active_name);
    }
    assert(session_files(files, active_name) =~= files.filter(
        |file: SessionFile|
            file.name@ == active_name || begins_with(file.name@, active_name + ".bak-"@),
    ).map_values(|file: SessionFile| file_info(file, active_name)));
}

/// A session is shown with the name, the place and the time of its file, with as many
/// messages as the file has lines with text, and as active where it is the one in use.
pub proof fn law_listed_session_shows_its_file(file: SessionFile, active_name: Seq<char>)
    ensures
        file_info(file, active_name).id == file.name@,
        file_info(file, active_name).path == file.path@,
        file_info(file, active_name).active <==> file.name@ == active_name,
        file_info(file, active_name).message_count == lines(lossy_text(file.bytes@)).filter(
            |line: Seq<char>| !is_blank_text(line),
        ).len(),
        file_info(file, active_name).modified_at == file.modified_at,
        file_info(file, active_name).updated_at == file.modified_at,
        file_info(file, active_name).preview == (match file.preview {
            Some(text) => Some(text@),
            None => None,
        }),
        file_info(file, active_name).status == SessionStatus::Idle,
        file_info(file, active_name).active_requests == 0,
{
    law_messages_are_counted_by_lines_with_text(lines(lossy_text(file.bytes@)));
}

/// Of two sessions the active one comes first, then the one that changed later, then one of
/// which that is known, and then the one whose name comes first.
pub proof fn law_sessions_are_compared_by_use_time_and_name(
    a: SessionInfoView,
    b: SessionInfoView,
)
    ensures
        a.active && !b.active ==> a.before(&b) && !b.before(&a),
        a.active == b.active ==> (a.modified_at matches Some(x) && b.modified_at matches Some(y)
            && x > y ==> a.before(&b) && !b.before(&a)),
        a.active == b.active && a.modified_at is Some && b.modified_at is None ==> a.before(&b)
            && !b.before(&a),
        a.active == b.active && a.modified_at == b.modified_at ==> (a.before(&b) <==> text_before(
            a.id,
            b.id,
        )),
{
}

/// A session is named by its file, and by the usual name where its path names none.
pub proof fn law_session_is_named_by_its_file(path: Seq<char>)
    ensures
        file_name_of(path) is Some ==> Some(session_name(path)) == file_name_of(path),
        file_name_of(path) is None ==> session_name(path) == "session.jsonl"@,
{
}

} // verus!

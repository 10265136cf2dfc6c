//! The conversation with an outside server over its standard streams.
use vstd::prelude::*;
use vstd::utf8::*;

use super::{listed_tools, parse_remote_tools, remote_views, RemoteTool};
use crate::json::{
    json_views, law_nothing_stands_under_a_missing_key, law_objects_give_the_first_entry_of_a_key,
    lemma_json_views, no_entries, Entries, Json, JsonView,
};
use crate::number::{
    decimal, lemma_number_trouble, number_trouble, number_trouble_text, parse_number, parse_usize,
};
use crate::outside::text_from_utf8;
use crate::text::{
    after_prefix, is_blank, is_blank_text, is_white_space, join, join_with, lemma_run_len,
    lemma_run_len_is, lemma_scalar_bytes, run_len, strip_prefix, texts, trim, trim_end, trim_start, trimmed,
    trimmed_end, white,
};

verus! {

/// The version of the protocol that is spoken.
pub open spec fn protocol_version() -> Seq<char> {
    "2024-11-05"@
}

/// The position behind the next line feed at or after a position.
pub open spec fn line_end(bytes: Seq<u8>, from: int) -> Option<int>
    decreases bytes.len() - from,
{
    if from < 0 || from >= bytes.len() {
        None
    } else if bytes[from] == 10 {
        Some(from + 1)
    } else {
        line_end(bytes, from + 1)
    }
}

/// What can be said of the line that starts at a position.
pub enum LineView {
    /// It has not come whole yet.
    Wait,
    /// There is none: the stream has ended.
    End,
    /// It goes up to here.
    Line(int),
}

/// The line that starts at a position. `closed` says whether more may come.
pub open spec fn next_line(bytes: Seq<u8>, from: int, closed: bool) -> LineView {
    match line_end(bytes, from) {
        Some(end) => LineView::Line(end),
        None => if !closed {
            LineView::Wait
        } else if from >= bytes.len() {
            LineView::End
        } else {
            LineView::Line(bytes.len() as int)
        },
    }
}

/// Why no frame can be read.
#[derive(Clone, Copy, Debug, PartialEq, Eq)]
pub enum FrameError {
    /// A line is not UTF-8.
    NotUtf8,
    /// The length of the body is no number, and why.
    BadLength(&'static str),
    /// The stream ends within the headers.
    HeaderCut,
    /// The stream ends within the body.
    BodyCut,
}

/// The mathematical value of a [`FrameError`].
pub enum FrameErrorView {
    NotUtf8,
    BadLength(Seq<char>),
    HeaderCut,
    BodyCut,
}

impl View for FrameError {
    type V = FrameErrorView;

    open spec fn view(&self) -> FrameErrorView {
        match *self {
            FrameError::NotUtf8 => FrameErrorView::NotUtf8,
            FrameError::BadLength(trouble) => FrameErrorView::BadLength(trouble@),
            FrameError::HeaderCut => FrameErrorView::HeaderCut,
            FrameError::BodyCut => FrameErrorView::BodyCut,
        }
    }
}

impl FrameError {
    /// The error in words.
    pub fn message(self) -> (text: String)
        ensures
            text@ == (match self@ {
                FrameErrorView::NotUtf8 => "stream did not contain valid UTF-8"@,
                FrameErrorView::BadLength(trouble) => "非法 MCP Content-Length: "@ + trouble,
                FrameErrorView::HeaderCut => "MCP header 未完整结束"@,
                FrameErrorView::BodyCut => "early eof"@,
            }),
    {
        match self {
            FrameError::NotUtf8 => "stream did not contain valid UTF-8".to_owned(),
            FrameError::BadLength(trouble) => {
                let mut text = "非法 MCP Content-Length: ".to_owned();
                text.append(trouble);
                text
            },
            FrameError::HeaderCut => "MCP header 未完整结束".to_owned(),
            FrameError::BodyCut => "early eof".to_owned(),
        }
    }
}

/// What the bytes that have come so far hold.
#[derive(Clone, Debug, PartialEq, Eq)]
pub enum FrameStep {
    /// No whole frame yet.
    Wait,
    /// No frame, and none will come.
    End,
    /// A frame, and how many bytes it takes with what stands before it.
    Frame { body: Vec<u8>, used: usize },
    /// Something that is no frame.
    Fail(FrameError),
}

/// The mathematical value of a [`FrameStep`].
pub enum FrameStepView {
    Wait,
    End,
    Frame { body: Seq<u8>, used: int },
    Fail(FrameErrorView),
}

impl View for FrameStep {
    type V = FrameStepView;

    open spec fn view(&self) -> FrameStepView {
        match *self {
            FrameStep::Wait => FrameStepView::Wait,
            FrameStep::End => FrameStepView::End,
            FrameStep::Frame { body, used } => FrameStepView::Frame { body: body@, used: used as int },
            FrameStep::Fail(error) => FrameStepView::Fail(error@),
        }
    }
}

proof fn lemma_line_end(bytes: Seq<u8>, from: int)
    requires
        0 <= from,
    ensures
        line_end(bytes, from) matches Some(end) ==> from < end <= bytes.len(),
    decreases bytes.len() - from,
{
    if from < bytes.len() && bytes[from] != 10 {
        lemma_line_end(bytes, from + 1);
    }
}

/// A line that has come goes on for at least one byte.
pub proof fn lemma_next_line(bytes: Seq<u8>, from: int, closed: bool)
    requires
        0 <= from,
    ensures
        next_line(bytes, from, closed) matches LineView::Line(end) ==> from < end <= bytes.len(),
{
    lemma_line_end(bytes, from);
}

/// The body of a frame of some length that starts at a position.
pub open spec fn body_at(bytes: Seq<u8>, from: int, length: nat, closed: bool) -> FrameStepView {
    if from + length <= bytes.len() {
        FrameStepView::Frame { body: bytes.subrange(from, from + length), used: from + length }
    } else if closed {
        FrameStepView::Fail(FrameErrorView::BodyCut)
    } else {
        FrameStepView::Wait
    }
}

/// The frame whose headers go on at a position: they end with a blank line, and
/// the body follows.
pub open spec fn after_headers(bytes: Seq<u8>, from: int, length: nat, closed: bool) -> FrameStepView
    decreases bytes.len() - from,
    when 0 <= from
{
    match next_line(bytes, from, closed) {
        LineView::Wait => FrameStepView::Wait,
        LineView::End => FrameStepView::Fail(FrameErrorView::HeaderCut),
        LineView::Line(end) => {
            proof {
                lemma_next_line(bytes, from, closed);
            }
            let line = bytes.subrange(from, end);
            if !valid_utf8(line) {
                FrameStepView::Fail(FrameErrorView::NotUtf8)
            } else if is_blank_text(decode_utf8(line)) {
                body_at(bytes, end, length, closed)
            } else {
                after_headers(bytes, end, length, closed)
            }
        },
    }
}

/// The frame that begins with a line that is not blank, which ends at a position:
/// the line itself, unless it says how long the body is.
pub open spec fn frame_of_line(line: Seq<char>, bytes: Seq<u8>, end: int, closed: bool) -> FrameStepView {
    match after_prefix(trim(line), "Content-Length:"@) {
        Some(length) => match number_trouble(trim(length), usize::MAX as nat) {
            Some(trouble) => FrameStepView::Fail(FrameErrorView::BadLength(trouble)),
            None => after_headers(
                bytes,
                end,
                parse_number(trim(length), usize::MAX as nat)->0,
                closed,
            ),
        },
        None => FrameStepView::Frame { body: encode_utf8(trim_end(line)), used: end },
    }
}

/// The first frame at or after a position. Blank lines before it are passed over.
pub open spec fn first_frame(bytes: Seq<u8>, from: int, closed: bool) -> FrameStepView
    decreases bytes.len() - from,
    when 0 <= from
{
    match next_line(bytes, from, closed) {
        LineView::Wait => FrameStepView::Wait,
        LineView::End => FrameStepView::End,
        LineView::Line(end) => {
            proof {
                lemma_next_line(bytes, from, closed);
            }
            let line = bytes.subrange(from, end);
            if !valid_utf8(line) {
                FrameStepView::Fail(FrameErrorView::NotUtf8)
            } else if is_blank_text(decode_utf8(line)) {
                first_frame(bytes, end, closed)
            } else {
                frame_of_line(decode_utf8(line), bytes, end, closed)
            }
        },
    }
}

/// What can be said of the line that starts at a position.
enum LineStep {
    Wait,
    End,
    Line(usize),
}

fn find_line(bytes: &Vec<u8>, from: usize, closed: bool) -> (step: LineStep)
    requires
        from <= bytes.len(),
    ensures
        match step {
            LineStep::Wait => next_line(bytes@, from as int, closed) == LineView::Wait,
            LineStep::End => next_line(bytes@, from as int, closed) == LineView::End,
            LineStep::Line(end) => next_line(bytes@, from as int, closed) == LineView::Line(
                end as int,
            ) && from < end <= bytes@.len(),
        },
{
    let mut at = from;
    while at < bytes.len()
        invariant
            from <= at <= bytes.len(),
            line_end(bytes@, from as int) == line_end(bytes@, at as int),
        decreases bytes.len() - at,
    {
        if bytes[at] == 10 {
            return LineStep::Line(at + 1);
        }
        at += 1;
    }
    if !closed {
        LineStep::Wait
    } else if from == bytes.len() {
        LineStep::End
    } else {
        LineStep::Line(bytes.len())
    }
}

fn copy_bytes(bytes: &Vec<u8>, from: usize, to: usize) -> (out: Vec<u8>)
    requires
        from <= to <= bytes.len(),
    ensures
        out@ == bytes@.subrange(from as int, to as int),
{
    let mut out: Vec<u8> = Vec::new();
    let mut at = from;
    while at < to
        invariant
            from <= at <= to <= bytes.len(),
            out@ == bytes@.subrange(from as int, at as int),
        decreases to - at,
    {
        out.push(bytes[at]);
        at += 1;
        assert(out@ =~= bytes@.subrange(from as int, at as int));
    }
    out
}

fn read_body(bytes: &Vec<u8>, from: usize, length: usize, closed: bool) -> (step: FrameStep)
    requires
        from <= bytes.len(),
    ensures
        step@ == body_at(bytes@, from as int, length as nat, closed),
{
    if length <= bytes.len() - from {
        FrameStep::Frame { body: copy_bytes(bytes, from, from + length), used: from + length }
    } else if closed {
        FrameStep::Fail(FrameError::BodyCut)
    } else {
        FrameStep::Wait
    }
}

fn read_headers(bytes: &Vec<u8>, from: usize, length: usize, closed: bool) -> (step: FrameStep)
    requires
        from <= bytes.len(),
    ensures
        step@ == after_headers(bytes@, from as int, length as nat, closed),
    decreases bytes.len() - from,
{
    match find_line(bytes, from, closed) {
        LineStep::Wait => FrameStep::Wait,
        LineStep::End => FrameStep::Fail(FrameError::HeaderCut),
        LineStep::Line(end) => {
            let line = match text_from_utf8(copy_bytes(bytes, from, end)) {
                Some(line) => line,
                None => return FrameStep::Fail(FrameError::NotUtf8),
            };
            if is_blank(line.as_str()) {
                read_body(bytes, end, length, closed)
            } else {
                read_headers(bytes, end, length, closed)
            }
        },
    }
}

/// The first frame of the bytes that have come so far. A frame is a line, or a
/// body of a length that headers announce.
pub fn read_frame(bytes: &Vec<u8>, closed: bool) -> (step: FrameStep)
    ensures
        step@ == first_frame(bytes@, 0, closed),
{
    let mut from: usize = 0;
    loop
        invariant
            from <= bytes.len(),
            first_frame(bytes@, 0, closed) == first_frame(bytes@, from as int, closed),
        decreases bytes.len() - from,
    {
        match find_line(bytes, from, closed) {
            LineStep::Wait => {
                return FrameStep::Wait;
            },
            LineStep::End => {
                return FrameStep::End;
            },
            LineStep::Line(end) => {
                let line = match text_from_utf8(copy_bytes(bytes, from, end)) {
                    Some(line) => line,
                    None => return FrameStep::Fail(FrameError::NotUtf8),
                };
                if is_blank(line.as_str()) {
                    from = end;
                } else {
                    let head = trimmed(line.as_str());
                    match strip_prefix(head.as_str(), "Content-Length:") {
                        Some(rest) => {
                            let digits = trimmed(rest.as_str());
                            if let Some(trouble) = number_trouble_text(
                                digits.as_str(),
                                usize::MAX as u64,
                            ) {
                                return FrameStep::Fail(FrameError::BadLength(trouble));
                            }
                            proof {
                                lemma_number_trouble(digits@, usize::MAX as nat);
                            }
                            let length = parse_usize(digits.as_str()).unwrap();
                            return read_headers(bytes, end, length, closed);
                        },
                        None => {
                            let text = trimmed_end(line.as_str());
                            return FrameStep::Frame { body: bytes_of(text.as_str()), used: end };
                        },
                    }
                }
            },
        }
    }
}

fn bytes_of(text: &str) -> (out: Vec<u8>)
    ensures
        out@ == encode_utf8(text@),
{
    let bytes = text.as_bytes();
    let mut out: Vec<u8> = Vec::new();
    let mut at: usize = 0;
    while at < bytes.len()
        invariant
            at <= bytes.len(),
            bytes@ == encode_utf8(text@),
            out@ == bytes@.take(at as int),
        decreases bytes.len() - at,
    {
        out.push(bytes[at]);
        at += 1;
        assert(out@ =~= bytes@.take(at as int));
    }
    assert(bytes@.take(at as int) =~= bytes@);
    out
}

/// A frame lies within the bytes that have come, and something is always read.
pub proof fn law_frames_make_progress(bytes: Seq<u8>, from: int, closed: bool)
    requires
        0 <= from <= bytes.len(),
    ensures
        first_frame(bytes, from, closed) matches FrameStepView::Frame { body, used } ==> from < used
            <= bytes.len(),
    decreases bytes.len() - from,
{
    lemma_next_line(bytes, from, closed);
    if let LineView::Line(end) = next_line(bytes, from, closed) {
        let line = bytes.subrange(from, end);
        if valid_utf8(line) {
            if is_blank_text(decode_utf8(line)) {
                law_frames_make_progress(bytes, end, closed);
            } else {
                if let Some(length) = after_prefix(trim(decode_utf8(line)), "Content-Length:"@) {
                    if number_trouble(trim(length), usize::MAX as nat) is None {
                        let n = parse_number(trim(length), usize::MAX as nat)->0;
                        lemma_headers_progress(bytes, end, n, closed);
                    }
                }
            }
        }
    }
}

proof fn lemma_headers_progress(bytes: Seq<u8>, from: int, length: nat, closed: bool)
    requires
        0 <= from <= bytes.len(),
    ensures
        after_headers(bytes, from, length, closed) matches FrameStepView::Frame { body, used } ==> from
            < used <= bytes.len() && body.len() == length,
    decreases bytes.len() - from,
{
    lemma_next_line(bytes, from, closed);
    if let LineView::Line(end) = next_line(bytes, from, closed) {
        let line = bytes.subrange(from, end);
        if valid_utf8(line) && !is_blank_text(decode_utf8(line)) {
            lemma_headers_progress(bytes, end, length, closed);
        }
    }
}

/// A message as it goes out: its compact JSON text on a line of its own.
pub fn write_message(text: &str) -> (line: String)
    ensures
        line@ == text@.push('\n'),
{
    let mut line = text.to_owned();
    line.push('\n');
    line
}

/// The bytes of a line: those of its text, among which there is no line feed, and
/// a line feed.
proof fn lemma_line_bytes(text: Seq<char>)
    requires
        forall|i: int| 0 <= i < text.len() ==> #[trigger] text[i] != '\n',
    ensures
        encode_utf8(text.push('\n')) == encode_utf8(text).push(10),
        forall|i: int|
            0 <= i < encode_utf8(text).len() ==> #[trigger] encode_utf8(text)[i] != 10,
    decreases text.len(),
{
    let line = text.push('\n');
    if text.len() == 0 {
        assert((10u32 & 0x7F) as u8 == 10) by (bit_vector);
        assert(line[0] as u32 == 10);
        assert(line.drop_first() =~= Seq::empty());
        assert(encode_utf8(line.drop_first()) =~= Seq::empty());
        assert(encode_scalar(10) =~= seq![10u8]);
        assert(encode_utf8(line) =~= encode_scalar(line[0] as u32));
        assert(encode_utf8(text) =~= Seq::empty());
        assert(encode_utf8(text).push(10) =~= seq![10u8]);
    } else {
        let rest = text.drop_first();
        assert forall|i: int| 0 <= i < rest.len() implies #[trigger] rest[i] != '\n' by {
            assert(text[i + 1] != '\n');
        }
        lemma_line_bytes(rest);
        let c = text[0];
        assert(c != '\n');
        char_u32_cast(c, c as u32);
        lemma_scalar_bytes(c as u32);
        assert(line.drop_first() =~= rest.push('\n'));
        assert(encode_utf8(line) =~= encode_utf8(text).push(10));
    }
}

proof fn lemma_line_end_is(bytes: Seq<u8>, from: int, at: int)
    requires
        0 <= from <= at < bytes.len(),
        bytes[at] == 10,
        forall|i: int| from <= i < at ==> #[trigger] bytes[i] != 10,
    ensures
        line_end(bytes, from) == Some(at + 1),
    decreases at - from,
{
    if from < at {
        lemma_line_end_is(bytes, from + 1, at);
    }
}

proof fn lemma_trim_line(text: Seq<char>)
    requires
        !is_blank_text(text),
    ensures
        !is_blank_text(text.push('\n')),
        trim_end(text.push('\n')) == trim_end(text),
        trim(text.push('\n')) == trim(text),
{
    let line = text.push('\n');
    let k = choose|k: int| 0 <= k < text.len() && !is_white_space(#[trigger] text[k]);
    assert(line[k] == text[k]);
    lemma_trim_end_line(text);
    lemma_run_len(text, white());
    let n = run_len(text, white());
    if n == text.len() {
        assert(white()(text[k]));
    }
    assert forall|i: int| 0 <= i < n implies white()(#[trigger] line[i]) by {
        assert(white()(text[i]));
    }
    assert(line[n as int] == text[n as int]);
    lemma_run_len_is(line, white(), n);
    assert(trim_start(line) =~= trim_start(text).push('\n'));
    lemma_trim_end_line(trim_start(text));
}

proof fn lemma_trim_end_line(text: Seq<char>)
    ensures
        trim_end(text.push('\n')) == trim_end(text),
{
    let back = text.push('\n').reverse();
    assert(back.skip(1) =~= text.reverse());
    assert(back[0] == '\n');
    lemma_run_len(text.reverse(), white());
    assert(trim_end(text.push('\n')) =~= trim_end(text));
}

/// A message that is written is read back as the first frame, whatever comes behind
/// it, unless it runs over a line, starts like a header or ends in white space.
pub proof fn law_written_message_is_read_back(text: Seq<char>, behind: Seq<u8>, closed: bool)
    requires
        forall|i: int| 0 <= i < text.len() ==> #[trigger] text[i] != '\n',
        !is_blank_text(text),
        trim_end(text) == text,
        after_prefix(trim(text), "Content-Length:"@) is None,
    ensures
        first_frame(encode_utf8(text.push('\n')) + behind, 0, closed) == (FrameStepView::Frame {
            body: encode_utf8(text),
            used: encode_utf8(text).len() as int + 1,
        }),
{
    let line = text.push('\n');
    let bytes = encode_utf8(line) + behind;
    lemma_line_bytes(text);
    let at = encode_utf8(text).len() as int;
    assert forall|i: int| 0 <= i < at implies #[trigger] bytes[i] != 10 by {
        assert(bytes[i] == encode_utf8(text)[i]);
    }
    lemma_line_end_is(bytes, 0, at);
    assert(bytes.subrange(0, at + 1) =~= encode_utf8(line));
    encode_utf8_valid_utf8(line);
    encode_utf8_decode_utf8(line);
    lemma_trim_line(text);
}

/// A request to a server.
pub open spec fn request_message(id: u64, method: Seq<char>, params: JsonView) -> JsonView {
    JsonView::Object(
        no_entries().push(("jsonrpc"@, JsonView::Text("2.0"@))).push(
            ("id"@, JsonView::Unsigned(id)),
        ).push(("method"@, JsonView::Text(method))).push(("params"@, params)),
    )
}

/// A notification to a server.
pub open spec fn notify_message(method: Seq<char>, params: JsonView) -> JsonView {
    JsonView::Object(
        no_entries().push(("jsonrpc"@, JsonView::Text("2.0"@))).push(
            ("method"@, JsonView::Text(method)),
        ).push(("params"@, params)),
    )
}

/// A notification to a server.
pub fn notify(method: &str, params: Json) -> (message: Json)
    ensures
        message@ == notify_message(method@, params@),
{
    Entries::new().with_text("jsonrpc", "2.0").with_text("method", method).with(
        "params",
        params,
    ).object()
}

/// What a client tells a server of itself at first.
pub open spec fn initialize_params(version: Seq<char>) -> JsonView {
    JsonView::Object(
        no_entries().push(("protocolVersion"@, JsonView::Text(protocol_version()))).push(
            ("capabilities"@, JsonView::Object(no_entries())),
        ).push(
            (
                "clientInfo"@,
                JsonView::Object(
                    no_entries().push(("name"@, JsonView::Text("my-agent"@))).push(
                        ("version"@, JsonView::Text(version)),
                    ),
                ),
            ),
        ),
    )
}

/// The parameters of a call of a tool.
pub fn call_params(name: &str, arguments: Json) -> (params: Json)
    ensures
        params@ == JsonView::Object(
            no_entries().push(("name"@, JsonView::Text(name@))).push(("arguments"@, arguments@)),
        ),
{
    Entries::new().with_text("name", name).with("arguments", arguments).object()
}

/// How far the conversation at the start of a connection is.
#[derive(Clone, Copy, Debug, PartialEq, Eq, Structural)]
pub enum HandshakeStage {
    /// The server has been told of the client.
    Initializing,
    /// The server has been asked for its tools.
    Listing,
}

/// What comes next in the conversation at the start of a connection.
#[derive(Debug)]
pub enum HandshakeStep {
    /// To notify the server, and to ask it for its tools.
    AskForTools { notification: Json, method: String, params: Json },
    /// Nothing: the tools are known.
    Connected(Vec<RemoteTool>),
    /// To give up.
    Fail(String),
}

/// What a client tells a server of itself at first.
pub fn start_handshake(version: &str) -> (out: (String, Json))
    ensures
        out.0@ == "initialize"@,
        out.1@ == initialize_params(version@),
{
    let info = Entries::new().with_text("name", "my-agent").with_text("version", version).object();
    let params = Entries::new().with_text("protocolVersion", "2024-11-05").with(
        "capabilities",
        Entries::new().object(),
    ).with("clientInfo", info).object();
    ("initialize".to_owned(), params)
}

/// What comes next once the server has answered.
pub fn continue_handshake(stage: HandshakeStage, reply: &Result<Json, String>) -> (step: HandshakeStep)
    ensures
        match reply {
            Err(error) => step matches HandshakeStep::Fail(said) && said@ == error@,
            Ok(result) => match stage {
                HandshakeStage::Initializing => match result@.field("protocolVersion"@).text() {
                    Some(_) => step matches HandshakeStep::AskForTools {
                        notification,
                        method,
                        params,
                    } && notification@ == notify_message(
                        "notifications/initialized"@,
                        JsonView::Object(no_entries()),
                    ) && method@ == "tools/list"@ && params@ == JsonView::Object(no_entries()),
                    None => step matches HandshakeStep::Fail(said) && said@
                        == "MCP initialize 响应缺少 protocolVersion"@,
                },
                HandshakeStage::Listing => match listed_tools(result@) {
                    Ok(tools) => step matches HandshakeStep::Connected(list) && remote_views(list@)
                        == tools,
                    Err(error) => step matches HandshakeStep::Fail(said) && said@ == error,
                },
            },
        },
{
    let result = match reply {
        Ok(result) => result,
        Err(error) => return HandshakeStep::Fail(error.clone()),
    };
    match stage {
        HandshakeStage::Initializing => match result.get_text("protocolVersion") {
            Some(_) => HandshakeStep::AskForTools {
                notification: notify("notifications/initialized", Entries::new().object()),
                method: "tools/list".to_owned(),
                params: Entries::new().object(),
            },
            None => HandshakeStep::Fail("MCP initialize 响应缺少 protocolVersion".to_owned()),
        },
        HandshakeStage::Listing => match parse_remote_tools(result) {
            Ok(tools) => HandshakeStep::Connected(tools),
            Err(error) => HandshakeStep::Fail(error),
        },
    }
}

/// The requests to a server that have not been answered.
#[derive(Clone, Debug, PartialEq, Eq)]
pub struct McpClient {
    pending: Vec<u64>,
    next_id: u64,
}

/// The mathematical value of a [`McpClient`].
pub struct ClientView {
    pub pending: Seq<u64>,
    pub next_id: u64,
}

impl View for McpClient {
    type V = ClientView;

    closed spec fn view(&self) -> ClientView {
        ClientView { pending: self.pending@, next_id: self.next_id }
    }
}

/// The answer that a message from a server brings: its result, or its error.
pub open spec fn answer(message: JsonView) -> Result<JsonView, JsonView> {
    match message.get("result"@) {
        Some(result) => Ok(result),
        None => match message.get("error"@) {
            Some(error) => Err(error),
            None => Err(
                JsonView::Object(
                    no_entries().push(("message"@, JsonView::Text("缺少 result/error"@))),
                ),
            ),
        },
    }
}

/// Some numbers without one of them.
pub open spec fn without_number(list: Seq<u64>, n: u64) -> Seq<u64>
    decreases list.len(),
{
    if list.len() == 0 {
        Seq::empty()
    } else if list.last() == n {
        without_number(list.drop_last(), n)
    } else {
        without_number(list.drop_last(), n).push(list.last())
    }
}

impl McpClient {
    /// No request has an id that is still to be given, and none has been made twice.
    pub open spec fn wf(&self) -> bool {
        &&& self@.pending.no_duplicates()
        &&& forall|i: int| 0 <= i < self@.pending.len() ==> #[trigger] self@.pending[i] < self@.next_id
    }

    /// A client that has asked for nothing yet.
    pub fn new() -> (client: McpClient)
        ensures
            client.wf(),
            client@.pending == Seq::<u64>::empty(),
            client@.next_id == 1,
    {
        let client = McpClient { pending: Vec::new(), next_id: 1 };
        assert(client@.pending =~= Seq::empty());
        client
    }

    /// Whether there is an id left for a new request.
    pub fn has_ids(&self) -> (left: bool)
        ensures
            left == (self@.next_id < u64::MAX),
    {
        self.next_id < u64::MAX
    }

    /// A new request, with an id of its own. It waits for its answer from now on.
    pub fn request(&mut self, method: &str, params: Json) -> (out: (u64, Json))
        requires
            old(self).wf(),
            old(self)@.next_id < u64::MAX,
        ensures
            final(self).wf(),
            out.0 == old(self)@.next_id,
            out.1@ == request_message(out.0, method@, params@),
            final(self)@.pending == old(self)@.pending.push(out.0),
            final(self)@.next_id == old(self)@.next_id + 1,
    {
        let id = self.next_id;
        let ghost before = self.pending@;
        self.next_id = id + 1;
        self.pending.push(id);
        proof {
            let now = self.pending@;
            assert forall|i: int, j: int|
                0 <= i < now.len() && 0 <= j < now.len() && i != j implies now[i] != now[j] by {
                if i == before.len() {
                    assert(before[j] < id);
                } else if j == before.len() {
                    assert(before[i] < id);
                }
            }
            assert forall|i: int| 0 <= i < now.len() implies #[trigger] self@.pending[i]
                < self@.next_id by {
                if i < before.len() {
                    assert(before[i] < id);
                }
            }
        }
        let message = Entries::new().with_text("jsonrpc", "2.0").with_number("id", id).with_text(
            "method",
            method,
        ).with("params", params).object();
        (id, message)
    }

    fn forget_at(&mut self, at: usize)
        requires
            old(self).wf(),
            at < old(self)@.pending.len(),
        ensures
            final(self).wf(),
            final(self)@.pending == without_number(
                old(self)@.pending,
                old(self)@.pending[at as int],
            ),
            final(self)@.next_id == old(self)@.next_id,
    {
        let ghost before = self.pending@;
        let removed = self.pending.remove(at);
        proof {
            lemma_without_number(before, at as int);
            let now = self.pending@;
            assert forall|i: int, j: int|
                0 <= i < now.len() && 0 <= j < now.len() && i != j implies now[i] != now[j] by {
                let a = if i < at {
                    i
                } else {
                    i + 1
                };
                let b = if j < at {
                    j
                } else {
                    j + 1
                };
                assert(before[a] != before[b]);
            }
            assert forall|i: int| 0 <= i < now.len() implies #[trigger] self@.pending[i]
                < self@.next_id by {
                let a = if i < at {
                    i
                } else {
                    i + 1
                };
                assert(before[a] < self@.next_id);
            }
        }
    }

    /// Gives up waiting for an answer.
    pub fn forget(&mut self, id: u64)
        requires
            old(self).wf(),
        ensures
            final(self).wf(),
            final(self)@.pending == without_number(old(self)@.pending, id),
            final(self)@.next_id == old(self)@.next_id,
    {
        let mut at: usize = 0;
        while at < self.pending.len()
            invariant
                at <= self.pending@.len(),
                self.wf(),
                self@ == old(self)@,
                forall|i: int| 0 <= i < at ==> #[trigger] self@.pending[i] != id,
            decreases self.pending@.len() - at,
        {
            if self.pending[at] == id {
                self.forget_at(at);
                return;
            }
            at += 1;
        }
        proof {
            lemma_without_absent_number(self@.pending, id);
        }
    }

    /// The answer that a message from the server brings, and the request that it
    /// answers; nothing where no request waits for it. An answered request waits
    /// no longer.
    pub fn dispatch(&mut self, message: &Json) -> (out: Option<(u64, Result<Json, Json>)>)
        requires
            old(self).wf(),
        ensures
            final(self).wf(),
            final(self)@.next_id == old(self)@.next_id,
            match message@.field("id"@).unsigned() {
                Some(id) => if old(self)@.pending.contains(id) {
                    &&& final(self)@.pending == without_number(old(self)@.pending, id)
                    &&& out matches Some((answered, result)) && answered == id && (match result {
                        Ok(value) => answer(message@) == Ok::<JsonView, JsonView>(value@),
                        Err(value) => answer(message@) == Err::<JsonView, JsonView>(value@),
                    })
                } else {
                    out is None && final(self)@.pending == old(self)@.pending
                },
                None => out is None && final(self)@.pending == old(self)@.pending,
            },
    {
        let id = match message.get("id") {
            Some(value) => match value.as_u64() {
                Some(id) => id,
                None => return None,
            },
            None => return None,
        };
        let mut at: usize = 0;
        while at < self.pending.len() && self.pending[at] != id
            invariant
                at <= self.pending@.len(),
                self.wf(),
                self@ == old(self)@,
                forall|i: int| 0 <= i < at ==> #[trigger] self@.pending[i] != id,
            decreases self.pending@.len() - at,
        {
            at += 1;
        }
        if at == self.pending.len() {
            assert(!self@.pending.contains(id));
            return None;
        }
        assert(old(self)@.pending[at as int] == id);
        self.forget_at(at);
        let result = match message.get("result") {
            Some(result) => Ok(result.copy()),
            None => match message.get("error") {
                Some(error) => Err(error.copy()),
                None => Err(Entries::new().with_text("message", "缺少 result/error").object()),
            },
        };
        Some((id, result))
    }

    /// The requests that still wait; none waits from now on.
    pub fn fail_pending(&mut self) -> (ids: Vec<u64>)
        ensures
            ids@ == old(self)@.pending,
            final(self)@.pending == Seq::<u64>::empty(),
            final(self)@.next_id == old(self)@.next_id,
    {
        let mut ids: Vec<u64> = Vec::new();
        std::mem::swap(&mut ids, &mut self.pending);
        assert(self@.pending =~= Seq::empty());
        ids
    }
}

proof fn lemma_without_absent_number(list: Seq<u64>, n: u64)
    requires
        forall|i: int| 0 <= i < list.len() ==> #[trigger] list[i] != n,
    ensures
        without_number(list, n) == list,
    decreases list.len(),
{
    if list.len() > 0 {
        let front = list.drop_last();
        assert forall|i: int| 0 <= i < front.len() implies #[trigger] front[i] != n by {
            assert(list[i] != n);
        }
        assert(list[list.len() - 1] != n);
        lemma_without_absent_number(front, n);
        assert(front.push(list.last()) =~= list);
    } else {
        assert(list =~= Seq::empty());
    }
}

proof fn lemma_without_number(list: Seq<u64>, at: int)
    requires
        0 <= at < list.len(),
        list.no_duplicates(),
    ensures
        without_number(list, list[at]) == list.remove(at),
    decreases list.len(),
{
    let front = list.drop_last();
    if at == list.len() - 1 {
        assert forall|i: int| 0 <= i < front.len() implies #[trigger] front[i] != list[at] by {
            assert(list[i] != list[at]);
        }
        lemma_without_absent_number(front, list[at]);
        assert(list.remove(at) =~= front);
    } else {
        assert(list[at] != list[list.len() - 1]);
        assert(front.no_duplicates()) by {
            assert forall|i: int, j: int|
                0 <= i < front.len() && 0 <= j < front.len() && i != j implies front[i] != front[j] by {
                assert(list[i] != list[j]);
            }
        }
        lemma_without_number(front, at);
        assert(list.remove(at) =~= front.remove(at).push(list.last()));
    }
}

/// What an item of a tool's answer says: its text, or itself in JSON.
pub open spec fn item_text(item: JsonView, rendered: Seq<char>) -> Seq<char> {
    match item.field("text"@).text() {
        Some(text) => text,
        None => rendered,
    }
}

/// What the items of a tool's answer say.
pub open spec fn item_texts(items: Seq<JsonView>, rendered: Seq<Seq<char>>) -> Seq<Seq<char>> {
    Seq::new(items.len(), |i: int| item_text(items[i], rendered[i]))
}

/// What a tool's answer says, line by line; itself in JSON where it has no items.
pub open spec fn call_content(result: JsonView, rendered: Seq<Seq<char>>, whole: Seq<char>) -> Seq<
    char,
> {
    match result.field("content"@) {
        JsonView::List(items) => join_with(item_texts(items, rendered), "\n"@),
        _ => whole,
    }
}

/// What came of a call of a tool. `rendered` holds the items of the answer in
/// JSON, `whole` the answer itself.
pub fn call_outcome(result: &Json, rendered: &Vec<String>, whole: &str) -> (out: Result<
    String,
    String,
>)
    requires
        rendered@.len() == result@.field("content"@).count(),
    ensures
        ({
            let content = call_content(result@, texts(rendered@), whole@);
            if result@.field("isError"@).truth() == Some(true) {
                out matches Err(error) && error@ == "MCP 工具返回错误："@ + content
            } else {
                out matches Ok(text) && text@ == content
            }
        }),
{
    let content = match result.get("content") {
        Some(Json::List(items)) => {
            let ghost views = json_views(items@);
            proof {
                lemma_json_views(items@);
            }
            let mut parts: Vec<String> = Vec::new();
            let mut at: usize = 0;
            while at < items.len()
                invariant
                    at == parts.len(),
                    at <= items.len(),
                    items@.len() == rendered@.len(),
                    views == json_views(items@),
                    forall|i: int|
                        0 <= i < at ==> (#[trigger] parts@[i])@ == item_text(
                            views[i],
                            rendered@[i]@,
                        ),
                decreases items.len() - at,
            {
                proof {
                    lemma_json_views(items@);
                    assert(views[at as int] == items@[at as int]@);
                }
                match items[at].get_text("text") {
                    Some(text) => parts.push(text.to_owned()),
                    None => parts.push(rendered[at].clone()),
                }
                at += 1;
            }
            assert(texts(parts@) =~= item_texts(views, texts(rendered@)));
            join(&parts, "\n")
        },
        _ => whole.to_owned(),
    };
    let is_error = match result.get("isError") {
        Some(value) => value.as_bool(),
        None => None,
    };
    if is_error == Some(true) {
        let mut error = "MCP 工具返回错误：".to_owned();
        error.append(content.as_str());
        return Err(error);
    }
    Ok(content)
}

/// The answer of a tool says what its items say, a line each and in their order: an item
/// with a text under `text` says that text, whatever else it holds, and any other item is
/// shown as it is. An answer with a single text says just that text.
pub proof fn law_answer_says_the_texts_of_its_items(
    result: JsonView,
    items: Seq<JsonView>,
    rendered: Seq<Seq<char>>,
    whole: Seq<char>,
)
    requires
        result.field("content"@) == JsonView::List(items),
        rendered.len() == items.len(),
    ensures
        exists|said: Seq<Seq<char>>|
            {
                &&& said.len() == items.len()
                &&& call_content(result, rendered, whole) == #[trigger] join_with(said, "\n"@)
                &&& forall|i: int|
                    0 <= i < items.len() ==> #[trigger] said[i] == (if items[i].field(
                        "text"@,
                    ) is Text {
                        items[i].field("text"@)->Text_0
                    } else {
                        rendered[i]
                    })
            },
        items.len() == 1 && items[0].field("text"@) is Text ==> call_content(
            result,
            rendered,
            whole,
        ) == items[0].field("text"@)->Text_0,
{
    let said = item_texts(items, rendered);
    assert(call_content(result, rendered, whole) == join_with(said, "\n"@));
    if items.len() == 1 {
        assert(said.len() == 1 && said[0] == item_text(items[0], rendered[0]));
    }
}

/// A body that is sent behind its length and a blank line is read as it was sent, whatever
/// bytes it holds and whatever comes behind it.
pub proof fn law_body_of_stated_length_is_read_back(
    header: Seq<char>,
    stated: Seq<char>,
    blank: Seq<char>,
    body: Seq<u8>,
    behind: Seq<u8>,
    closed: bool,
)
    requires
        body.len() <= usize::MAX,
        forall|i: int| 0 <= i < header.len() ==> #[trigger] header[i] != '\n',
        forall|i: int| 0 <= i < blank.len() ==> #[trigger] blank[i] != '\n',
        trim(header) == "Content-Length:"@ + stated,
        trim(stated) == decimal(body.len()),
        is_blank_text(blank),
    ensures
        first_frame(
            encode_utf8(header.push('\n')) + encode_utf8(blank.push('\n')) + body + behind,
            0,
            closed,
        ) == (FrameStepView::Frame {
            body,
            used: encode_utf8(header.push('\n')).len() + encode_utf8(blank.push('\n')).len()
                + body.len() as int,
        }),
{
    let first = encode_utf8(header.push('\n'));
    let second = encode_utf8(blank.push('\n'));
    let bytes = first + second + body + behind;
    let n = body.len();
    reveal_strlit("Content-Length:");
    lemma_blank_trims_to_nothing(header);
    assert("Content-Length:"@.len() == 15);
    assert(!is_blank_text(header));
    lemma_trim_line(header);
    lemma_line_bytes(header);
    lemma_line_bytes(blank);
    let a = encode_utf8(header).len() as int;
    let b = encode_utf8(blank).len() as int;
    assert forall|i: int| 0 <= i < a implies #[trigger] bytes[i] != 10 by {
        assert(bytes[i] == encode_utf8(header)[i]);
    }
    lemma_line_end_is(bytes, 0, a);
    assert forall|i: int| a + 1 <= i < a + 1 + b implies #[trigger] bytes[i] != 10 by {
        assert(bytes[i] == encode_utf8(blank)[i - a - 1]);
    }
    assert(bytes[a + 1 + b] == second[b]);
    lemma_line_end_is(bytes, a + 1, a + 1 + b);
    assert(bytes.subrange(0, a + 1) =~= first);
    assert(bytes.subrange(a + 1, a + 1 + b + 1) =~= second);
    encode_utf8_valid_utf8(header.push('\n'));
    encode_utf8_decode_utf8(header.push('\n'));
    encode_utf8_valid_utf8(blank.push('\n'));
    encode_utf8_decode_utf8(blank.push('\n'));
    assert(is_blank_text(blank.push('\n')));
    crate::text::law_prefix_and_rest_make_the_text(trim(header), "Content-Length:"@, stated);
    crate::number::lemma_parse_decimal(n, usize::MAX as nat);
    lemma_number_trouble(decimal(n), usize::MAX as nat);
    assert(bytes.subrange(a + b + 2, a + b + 2 + n) =~= body);
}

proof fn lemma_blank_trims_to_nothing(s: Seq<char>)
    ensures
        is_blank_text(s) ==> trim(s).len() == 0,
{
    crate::text::lemma_trim_empty_iff_blank(s);
}

/// Bytes that do not make a whole line yet are waited for.
pub proof fn law_half_a_line_is_waited_for(bytes: Seq<u8>)
    requires
        forall|i: int| 0 <= i < bytes.len() ==> #[trigger] bytes[i] != 10,
    ensures
        first_frame(bytes, 0, false) is Wait,
        bytes.len() == 0 ==> first_frame(bytes, 0, true) is End,
{
    lemma_no_line_end(bytes, 0);
}

proof fn lemma_no_line_end(bytes: Seq<u8>, from: int)
    requires
        0 <= from,
        forall|i: int| 0 <= i < bytes.len() ==> #[trigger] bytes[i] != 10,
    ensures
        line_end(bytes, from) is None,
    decreases bytes.len() - from,
{
    if from < bytes.len() {
        lemma_no_line_end(bytes, from + 1);
    }
}

/// A request carries its number, its method and its parameters; a notification carries no
/// number.
pub proof fn law_messages_carry_what_is_asked(id: u64, method: Seq<char>, params: JsonView)
    ensures
        request_message(id, method, params).field("jsonrpc"@) == JsonView::Text("2.0"@),
        request_message(id, method, params).field("id"@) == JsonView::Unsigned(id),
        request_message(id, method, params).field("method"@) == JsonView::Text(method),
        request_message(id, method, params).field("params"@) == params,
        notify_message(method, params).field("jsonrpc"@) == JsonView::Text("2.0"@),
        notify_message(method, params).get("id"@) is None,
        notify_message(method, params).field("method"@) == JsonView::Text(method),
        notify_message(method, params).field("params"@) == params,
{
    reveal_strlit("jsonrpc");
    reveal_strlit("id");
    reveal_strlit("method");
    reveal_strlit("params");
    assert("jsonrpc"@.len() == 7 && "id"@.len() == 2 && "method"@.len() == 6 && "params"@.len()
        == 6);
    assert("method"@[0] == 'm' && "params"@[0] == 'p');
    if let JsonView::Object(entries) = request_message(id, method, params) {
        law_objects_give_the_first_entry_of_a_key(entries, "jsonrpc"@, 0);
        law_objects_give_the_first_entry_of_a_key(entries, "id"@, 1);
        law_objects_give_the_first_entry_of_a_key(entries, "method"@, 2);
        law_objects_give_the_first_entry_of_a_key(entries, "params"@, 3);
    }
    if let JsonView::Object(entries) = notify_message(method, params) {
        law_objects_give_the_first_entry_of_a_key(entries, "jsonrpc"@, 0);
        law_objects_give_the_first_entry_of_a_key(entries, "method"@, 1);
        law_objects_give_the_first_entry_of_a_key(entries, "params"@, 2);
        law_nothing_stands_under_a_missing_key(notify_message(method, params), "id"@);
    }
}

/// A server's answer is its result wherever it sent one, and else its error.
pub proof fn law_answer_is_the_result_or_the_error(message: JsonView)
    ensures
        message.get("result"@) is Some ==> answer(message) == Ok::<JsonView, JsonView>(
            message.field("result"@),
        ),
        message.get("result"@) is None ==> answer(message) is Err,
        message.get("result"@) is None && message.get("error"@) is Some ==> answer(message)
            == Err::<JsonView, JsonView>(message.field("error"@)),
{
}

/// Once a number is answered, it alone is waited for no longer.
pub proof fn law_other_numbers_are_still_waited_for(list: Seq<u64>, n: u64)
    ensures
        without_number(list, n) == list.filter(|other: u64| other != n),
    decreases list.len(),
{
    reveal(Seq::filter);
    if list.len() > 0 {
        law_other_numbers_are_still_waited_for(list.drop_last(), n);
    }
    assert(without_number(list, n) =~= list.filter(|other: u64| other != n));
}

/// An answer with one item that has a text is that text, whatever else the item holds; an
/// answer that is marked as an error is one.
pub proof fn law_called_tool_answers_with_its_text(
    result: &Json,
    rendered: &Vec<String>,
    whole: &str,
    out: Result<String, String>,
    item: JsonView,
    text: Seq<char>,
)
    requires
        call_ensures(call_outcome, (result, rendered, whole), out),
        result@.field("content"@) == JsonView::List(seq![item]),
        rendered@.len() == 1,
        item.field("text"@) == JsonView::Text(text),
    ensures
        result@.field("isError"@) != JsonView::Bool(true) ==> out is Ok && (out->Ok_0)@ == text,
        result@.field("isError"@) == JsonView::Bool(true) ==> out is Err && (out->Err_0)@
            == "MCP 工具返回错误："@ + text,
{
    law_answer_says_the_texts_of_its_items(result@, seq![item], texts(rendered@), whole@);
}

/// An answer without a list of items is shown whole.
pub proof fn law_answer_without_items_is_shown_whole(
    result: &Json,
    rendered: &Vec<String>,
    whole: &str,
    out: Result<String, String>,
)
    requires
        call_ensures(call_outcome, (result, rendered, whole), out),
        !(result@.field("content"@) is List),
        result@.field("isError"@) != JsonView::Bool(true),
    ensures
        out is Ok && (out->Ok_0)@ == whole@,
{
}

/// A server is asked for its tools once it has told its version, and it is connected once it
/// has listed them.
pub proof fn law_handshake_asks_for_the_tools(
    stage: HandshakeStage,
    reply: &Result<Json, String>,
    step: HandshakeStep,
)
    requires
        call_ensures(continue_handshake, (stage, reply), step),
    ensures
        reply matches Err(error) ==> step is Fail && (step->Fail_0)@ == error@,
        reply matches Ok(result) ==> (stage is Initializing && result@.field(
            "protocolVersion"@,
        ) is Text ==> (step matches HandshakeStep::AskForTools { method, .. } && method@
            == "tools/list"@)),
        reply matches Ok(result) ==> (stage is Initializing && !(result@.field(
            "protocolVersion"@,
        ) is Text) ==> step is Fail),
        reply matches Ok(result) ==> (stage is Listing ==> (step is Connected <==> listed_tools(
            result@,
        ) is Ok)),
{
}

/// A client tells a server the version of the protocol, who it is and its own version.
pub proof fn law_client_tells_who_it_is(version: Seq<char>)
    ensures
        initialize_params(version).field("protocolVersion"@) == JsonView::Text("2024-11-05"@),
        initialize_params(version).field("capabilities"@) is Object,
        initialize_params(version).field("clientInfo"@).field("name"@) == JsonView::Text(
            "my-agent"@,
        ),
        initialize_params(version).field("clientInfo"@).field("version"@) == JsonView::Text(version),
{
    reveal_strlit("protocolVersion");
    reveal_strlit("capabilities");
    reveal_strlit("clientInfo");
    reveal_strlit("name");
    reveal_strlit("version");
    assert("protocolVersion"@.len() == 15 && "capabilities"@.len() == 12 && "clientInfo"@.len()
        == 10 && "name"@.len() == 4 && "version"@.len() == 7);
    if let JsonView::Object(entries) = initialize_params(version) {
        law_objects_give_the_first_entry_of_a_key(entries, "protocolVersion"@, 0);
        law_objects_give_the_first_entry_of_a_key(entries, "capabilities"@, 1);
        law_objects_give_the_first_entry_of_a_key(entries, "clientInfo"@, 2);
        if let JsonView::Object(info) = entries[2].1 {
            law_objects_give_the_first_entry_of_a_key(info, "name"@, 0);
            law_objects_give_the_first_entry_of_a_key(info, "version"@, 1);
        }
    }
}

/// The answer to a request goes to that request: it is handed on with the result, and what
/// else is waited for is waited for still.
pub proof fn law_answers_go_to_their_requests(
    asking: &mut McpClient,
    answered: &mut McpClient,
    method: &str,
    params: Json,
    sent: (u64, Json),
    message: &Json,
    out: Option<(u64, Result<Json, Json>)>,
    result: JsonView,
)
    requires
        old(asking).wf(),
        call_ensures(McpClient::request, (asking, method, params), sent),
        call_ensures(McpClient::dispatch, (answered, message), out),
        message@.field("id"@) == JsonView::Unsigned(sent.0),
        message@.get("result"@) == Some(result),
    ensures
        sent.1@.field("id"@) == JsonView::Unsigned(sent.0),
        sent.1@.field("method"@) == JsonView::Text(method@),
        sent.1@.field("params"@) == params@,
        old(answered)@ == final(asking)@ ==> {
            &&& out matches Some((id, Ok(value))) && id == sent.0 && value@ == result
            &&& final(answered)@.pending == old(asking)@.pending
        },
{
    law_messages_carry_what_is_asked(sent.0, method@, params@);
    let before = old(asking)@.pending;
    let all = before.push(sent.0);
    assert(all[before.len() as int] == sent.0);
    assert(all.contains(sent.0));
    assert(all.drop_last() =~= before);
    lemma_without_absent_number(before, sent.0);
}

/// A message that answers nothing that is waited for changes nothing.
pub proof fn law_other_messages_change_nothing(
    client: &mut McpClient,
    message: &Json,
    out: Option<(u64, Result<Json, Json>)>,
)
    requires
        old(client).wf(),
        call_ensures(McpClient::dispatch, (client, message), out),
        message@.field("id"@) matches JsonView::Unsigned(id) ==> !old(client)@.pending.contains(id),
    ensures
        out is None,
        final(client)@ == old(client)@,
{
}

} // verus!

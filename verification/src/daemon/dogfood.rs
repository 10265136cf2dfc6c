//! The report on a session: what was said in it, and what the daemon logged of it.
use vstd::prelude::*;

use super::handlers::INTERNAL_ERROR;
use crate::number::{decimal, decimal_text};
use crate::outside::{lossy_text, text_from_utf8_lossy};
use crate::path::{file_name_of, file_stem, join_path, joined, parent, parent_of, stem};
use crate::session::{count_filled_lines, filled_lines};
use crate::text::{
    chars_of, contains, contains_text, join, join_with, lines, run_len, split_lines, texts,
};

verus! {

/// The character that starts a terminal control sequence.
pub const ESCAPE: char = '\u{1b}';

/// Whether a control sequence starts here.
pub open spec fn starts_sequence(s: Seq<char>) -> bool {
    s.len() > 1 && s[0] == ESCAPE && s[1] == '['
}

/// The characters of a control sequence before the one that ends it.
pub open spec fn inside_sequence() -> spec_fn(char) -> bool {
    |c: char| !('@' <= c <= '~')
}

/// What follows the control sequence that a text starts with.
pub open spec fn after_sequence(s: Seq<char>) -> Seq<char> {
    let body = s.skip(2);
    let n = run_len(body, inside_sequence()) as int;
    if n < body.len() {
        body.skip(n + 1)
    } else {
        Seq::empty()
    }
}

/// A text without its terminal control sequences.
pub open spec fn stripped(s: Seq<char>) -> Seq<char>
    decreases s.len(),
{
    if s.len() == 0 {
        Seq::empty()
    } else if starts_sequence(s) {
        stripped(after_sequence(s))
    } else {
        seq![s[0]] + stripped(s.skip(1))
    }
}

/// A text without its terminal control sequences. One that does not end runs to the
/// end of the text.
pub fn strip_ansi_sequences(input: &str) -> (out: String)
    ensures
        out@ == stripped(input@),
{
    let chars = chars_of(input);
    let total = chars.len();
    let mut out = String::new();
    let mut at: usize = 0;
    assert(input@.skip(0) =~= input@);
    assert(out@ + stripped(input@) =~= stripped(input@));
    while at < total
        invariant
            at <= total,
            total == chars@.len(),
            chars@ == input@,
            out@ + stripped(input@.skip(at as int)) == stripped(input@),
        decreases total - at,
    {
        let ghost rest = input@.skip(at as int);
        let ghost before = out@;
        if chars[at] == ESCAPE && at + 1 < total && chars[at + 1] == '[' {
            assert(starts_sequence(rest));
            let start = at + 2;
            at = start;
            while at < total && !('@' <= chars[at] && chars[at] <= '~')
                invariant
                    start <= at <= total,
                    total == chars@.len(),
                    chars@ == input@,
                    forall|i: int| start <= i < at ==> inside_sequence()(#[trigger] input@[i]),
                decreases total - at,
            {
                at += 1;
            }
            proof {
                let body = rest.skip(2);
                assert(body =~= input@.skip(start as int));
                crate::text::lemma_run_len_is(body, inside_sequence(), (at - start) as nat);
                if at < total {
                    assert(after_sequence(rest) =~= input@.skip(at + 1));
                } else {
                    assert(after_sequence(rest) =~= input@.skip(at as int));
                }
            }
            if at < total {
                at += 1;
            }
        } else {
            assert(!starts_sequence(rest));
            out.push(chars[at]);
            at += 1;
            assert(rest.skip(1) =~= input@.skip(at as int));
            assert(out@ + stripped(input@.skip(at as int)) =~= before + stripped(rest));
        }
    }
    assert(input@.skip(at as int).len() == 0);
    assert(out@ + stripped(input@.skip(at as int)) =~= out@);
    out
}

/// A text in which no control sequence starts stays as it is.
pub proof fn law_plain_text_is_not_stripped(s: Seq<char>)
    requires
        !s.contains(ESCAPE),
    ensures
        stripped(s) == s,
    decreases s.len(),
{
    if s.len() > 0 {
        assert(s[0] != ESCAPE);
        let rest = s.skip(1);
        assert forall|i: int| 0 <= i < rest.len() implies #[trigger] rest[i] != ESCAPE by {
            assert(s[i + 1] != ESCAPE);
        }
        law_plain_text_is_not_stripped(rest);
        assert(stripped(s) =~= s);
    }
}

/// Nothing is in a stripped text that was not in the text before.
pub proof fn law_stripping_adds_nothing(s: Seq<char>, c: char)
    requires
        stripped(s).contains(c),
    ensures
        s.contains(c),
    decreases s.len(),
{
    if s.len() > 0 {
        let at = choose|i: int| 0 <= i < stripped(s).len() && stripped(s)[i] == c;
        if starts_sequence(s) {
            let rest = after_sequence(s);
            law_stripping_adds_nothing(rest, c);
            let k = choose|k: int| 0 <= k < rest.len() && rest[k] == c;
            let n = run_len(s.skip(2), inside_sequence()) as int;
            assert(s[2 + n + 1 + k] == c);
        } else if at == 0 {
            assert(s[0] == c);
        } else {
            let rest = s.skip(1);
            assert(stripped(rest)[at - 1] == c);
            law_stripping_adds_nothing(rest, c);
            let k = choose|k: int| 0 <= k < rest.len() && rest[k] == c;
            assert(s[k + 1] == c);
        }
    }
}

/// Whether a line of the log is about a session.
pub open spec fn names_session(line: Seq<char>, session_id: Seq<char>) -> bool {
    contains_text(line, "session_id="@ + session_id) || contains_text(
        line,
        "session_id=\""@ + session_id + "\""@,
    )
}

/// The lines of a log that are about a session, without control sequences.
pub open spec fn chain_lines(log: Seq<Seq<char>>, session_id: Seq<char>) -> Seq<Seq<char>>
    decreases log.len(),
{
    if log.len() == 0 {
        Seq::empty()
    } else {
        let front = chain_lines(log.drop_last(), session_id);
        let line = stripped(log.last());
        if names_session(line, session_id) {
            front.push(line)
        } else {
            front
        }
    }
}

/// The lines of a log that are about a session, without control sequences.
pub fn chain_logs(log: &str, session_id: &str) -> (out: Vec<String>)
    ensures
        texts(out@) == chain_lines(lines(log@), session_id@),
{
    let mut marker = "session_id=".to_owned();
    marker.append(session_id);
    let mut quoted = "session_id=\"".to_owned();
    quoted.append(session_id);
    quoted.append("\"");
    let all = split_lines(log);
    let mut out: Vec<String> = Vec::new();
    let mut at: usize = 0;
    assert(texts(out@) =~= chain_lines(lines(log@).take(0), session_id@));
    while at < all.len()
        invariant
            at <= all.len(),
            texts(all@) == lines(log@),
            marker@ == "session_id="@ + session_id@,
            quoted@ == "session_id=\""@ + session_id@ + "\""@,
            texts(out@) == chain_lines(lines(log@).take(at as int), session_id@),
        decreases all.len() - at,
    {
        let line = strip_ansi_sequences(all[at].as_str());
        let ghost before = out@;
        assert(lines(log@)[at as int] == all@[at as int]@);
        assert(lines(log@).take(at + 1).drop_last() =~= lines(log@).take(at as int));
        if contains(line.as_str(), marker.as_str()) || contains(line.as_str(), quoted.as_str()) {
            out.push(line);
            assert(texts(out@) =~= texts(before).push(line@));
        }
        at += 1;
    }
    assert(lines(log@).take(at as int) =~= lines(log@));
    out
}

/// Only lines that name a session get into the report on it.
pub proof fn law_chain_lines_name_the_session(log: Seq<Seq<char>>, session_id: Seq<char>, i: int)
    requires
        0 <= i < chain_lines(log, session_id).len(),
    ensures
        names_session(chain_lines(log, session_id)[i], session_id),
    decreases log.len(),
{
    let front = chain_lines(log.drop_last(), session_id);
    if i < front.len() {
        law_chain_lines_name_the_session(log.drop_last(), session_id, i);
    }
}

/// Every line of a log that names a session gets into the report on it.
pub proof fn law_lines_that_name_the_session_are_kept(
    log: Seq<Seq<char>>,
    session_id: Seq<char>,
    i: int,
)
    requires
        0 <= i < log.len(),
        names_session(stripped(log[i]), session_id),
    ensures
        chain_lines(log, session_id).contains(stripped(log[i])),
    decreases log.len(),
{
    let front = chain_lines(log.drop_last(), session_id);
    let all = chain_lines(log, session_id);
    if i == log.len() - 1 {
        assert(all[all.len() - 1] == stripped(log[i]));
    } else {
        law_lines_that_name_the_session_are_kept(log.drop_last(), session_id, i);
        let k = choose|k: int| 0 <= k < front.len() && front[k] == stripped(log[i]);
        assert(all[k] == front[k]);
    }
}

/// The report on a session, made of the texts of its file and of the log.
pub open spec fn dogfood_text(
    session_id: Seq<char>,
    session_path: Seq<char>,
    log_path: Seq<char>,
    session: Seq<char>,
    log: Seq<char>,
    generated_at: nat,
) -> Seq<char> {
    let chain = join_with(chain_lines(lines(log), session_id), "\n"@);
    "# my-agent dogfood export\nschema_version=1\ngenerated_at_unix_ms="@ + decimal(generated_at)
        + "\nsession_id="@ + session_id + "\nsession_file="@ + session_path + "\ndaemon_log_file="@
        + log_path + "\nconversation_messages="@ + decimal(filled_lines(lines(session)))
        + "\nchain_log_lines="@ + decimal(lines(chain).len())
        + "\n\n===== LLM / REACT CONVERSATION (RAW SESSION JSONL) =====\n"@ + (if session.len()
        == 0 {
        "(当前 session 尚无持久化消息)\n"@
    } else if session.last() == '\n' {
        session
    } else {
        session.push('\n')
    }) + "\n===== DAEMON CHAIN LOG (CURRENT SESSION ONLY) =====\n"@ + (if chain.len() == 0 {
        "(未找到带当前 session_id 的 daemon 链路日志)\n"@
    } else {
        chain.push('\n')
    })
}

/// The report on a session, made of the texts of its file and of the log.
pub fn dogfood_report(
    session_id: &str,
    session_path: &str,
    log_path: &str,
    session: &str,
    log: &str,
    generated_at_ms: u128,
) -> (out: String)
    ensures
        out@ == dogfood_text(
            session_id@,
            session_path@,
            log_path@,
            session@,
            log@,
            generated_at_ms as nat,
        ),
{
    let chain = join(&chain_logs(log, session_id), "\n");
    let chain_chars = chars_of(chain.as_str());
    let session_chars = chars_of(session);
    let chain_line_list = split_lines(chain.as_str());
    assert(lines(chain@).len() == chain_line_list@.len());
    let mut out = "# my-agent dogfood export\nschema_version=1\ngenerated_at_unix_ms=".to_owned();
    out.append(decimal_text(generated_at_ms).as_str());
    out.append("\nsession_id=");
    out.append(session_id);
    out.append("\nsession_file=");
    out.append(session_path);
    out.append("\ndaemon_log_file=");
    out.append(log_path);
    out.append("\nconversation_messages=");
    out.append(decimal_text(count_filled_lines(session) as u128).as_str());
    out.append("\nchain_log_lines=");
    out.append(decimal_text(chain_line_list.len() as u128).as_str());
    out.append("\n\n===== LLM / REACT CONVERSATION (RAW SESSION JSONL) =====\n");
    let ghost head = out@;
    if session_chars.len() == 0 {
        out.append("(当前 session 尚无持久化消息)\n");
    } else {
        out.append(session);
        if session_chars[session_chars.len() - 1] != '\n' {
            out.push('\n');
            assert(out@ =~= head + session@.push('\n'));
        }
    }
    out.append("\n===== DAEMON CHAIN LOG (CURRENT SESSION ONLY) =====\n");
    let ghost middle = out@;
    if chain_chars.len() == 0 {
        out.append("(未找到带当前 session_id 的 daemon 链路日志)\n");
    } else {
        out.append(chain.as_str());
        out.push('\n');
        assert(out@ =~= middle + chain@.push('\n'));
    }
    out
}

/// Where the report on a session is kept: beside the session's file.
pub open spec fn dogfood_path(session_path: Seq<char>) -> Seq<char> {
    joined(
        match parent_of(session_path) {
            Some(directory) => directory,
            None => "."@,
        },
        "dogfood-"@ + (match file_name_of(session_path) {
            Some(name) => stem(name),
            None => "session"@,
        }) + ".log"@,
    )
}

/// The report on a session and where to keep it, from the bytes of its file and of
/// the log.
pub fn export_dogfood_file(
    session_id: &str,
    session_path: &str,
    daemon_log_path: &str,
    session_bytes: &Vec<u8>,
    daemon_bytes: &Vec<u8>,
    generated_at_ms: u128,
) -> (out: (String, String))
    ensures
        out.0@ == dogfood_path(session_path@),
        out.1@ == dogfood_text(
            session_id@,
            session_path@,
            daemon_log_path@,
            lossy_text(session_bytes@),
            lossy_text(daemon_bytes@),
            generated_at_ms as nat,
        ),
{
    let session = text_from_utf8_lossy(session_bytes.as_slice());
    let log = text_from_utf8_lossy(daemon_bytes.as_slice());
    let text = dogfood_report(
        session_id,
        session_path,
        daemon_log_path,
        session.as_str(),
        log.as_str(),
        generated_at_ms,
    );
    let directory = match parent(session_path) {
        Some(directory) => directory,
        None => ".".to_owned(),
    };
    let mut name = "dogfood-".to_owned();
    match file_stem(session_path) {
        Some(part) => name.append(part.as_str()),
        None => name.append("session"),
    }
    name.append(".log");
    (join_path(directory.as_str(), name.as_str()), text)
}

/// The answer where no report could be made.
pub fn dogfood_failure(reason: &str) -> (out: (i64, String))
    ensures
        out.0 == INTERNAL_ERROR,
        out.1@ == "生成 dogfood 日志失败："@ + reason@,
{
    let mut message = "生成 dogfood 日志失败：".to_owned();
    message.append(reason);
    (INTERNAL_ERROR, message)
}

/// An escape sequence is taken out of a text: its start, whatever stands within it, and the
/// character that ends it. What stands before and behind it stays.
pub proof fn law_escape_sequences_are_taken_out(
    before: Seq<char>,
    within: Seq<char>,
    end: char,
    behind: Seq<char>,
)
    requires
        !before.contains('\u{1b}'),
        forall|i: int| 0 <= i < within.len() ==> !('@' <= #[trigger] within[i] <= '~'),
        '@' <= end <= '~',
    ensures
        stripped(before + seq!['\u{1b}', '['] + within + seq![end] + behind) == before + stripped(
            behind,
        ),
    decreases before.len(),
{
    let s = before + seq!['\u{1b}', '['] + within + seq![end] + behind;
    if before.len() == 0 {
        let body = s.skip(2);
        let n = within.len();
        assert(s[0] == ESCAPE && s[1] == '[');
        assert(body =~= within + seq![end] + behind);
        assert forall|i: int| 0 <= i < n implies inside_sequence()(#[trigger] body[i]) by {
            assert(body[i] == within[i]);
        }
        assert(body[n as int] == end);
        crate::text::lemma_run_len_is(body, inside_sequence(), n);
        assert(body.skip(n as int + 1) =~= behind);
        assert(after_sequence(s) =~= behind);
        assert(before + stripped(behind) =~= stripped(behind));
    } else {
        let rest = before.skip(1);
        assert(before.contains(before[0]));
        assert forall|i: int| 0 <= i < rest.len() implies rest[i] != '\u{1b}' by {
            assert(before.contains(before[i + 1]));
        }
        law_escape_sequences_are_taken_out(rest, within, end, behind);
        assert(s.skip(1) =~= rest + seq!['\u{1b}', '['] + within + seq![end] + behind);
        assert(s[0] == before[0]);
        assert(stripped(s) =~= before + stripped(behind));
    }
}

/// The lines of the log that are kept are those that name the session, with or without
/// quotation marks, all of them in their order and without escape sequences.
pub proof fn law_all_lines_of_the_session_are_kept(log: Seq<Seq<char>>, session_id: Seq<char>)
    ensures
        chain_lines(log, session_id) == log.map_values(|line: Seq<char>| stripped(line)).filter(
            |line: Seq<char>|
                contains_text(line, "session_id="@ + session_id) || contains_text(
                    line,
                    "session_id=\""@ + session_id + "\""@,
                ),
        ),
    decreases log.len(),
{
    reveal(Seq::filter);
    let shown = log.map_values(|line: Seq<char>| stripped(line));
    if log.len() > 0 {
        law_all_lines_of_the_session_are_kept(log.drop_last(), session_id);
        assert(shown.drop_last() =~= log.drop_last().map_values(
            |line: Seq<char>| stripped(line),
        ));
        assert(shown.last() == stripped(log.last()));
    } else {
        assert(shown =~= Seq::empty());
    }
    assert(chain_lines(log, session_id) =~= shown.filter(
        |line: Seq<char>|
            contains_text(line, "session_id="@ + session_id) || contains_text(
                line,
                "session_id=\""@ + session_id + "\""@,
            ),
    ));
}

/// The report holds the whole conversation and every line of the log that names the
/// session, and says which session it is of.
pub proof fn law_report_holds_conversation_and_log(
    session_id: Seq<char>,
    session_path: Seq<char>,
    log_path: Seq<char>,
    session: Seq<char>,
    log: Seq<char>,
    generated_at: nat,
    i: int,
)
    ensures
        ({
            let text = dogfood_text(
                session_id,
                session_path,
                log_path,
                session,
                log,
                generated_at,
            );
            let kept = chain_lines(lines(log), session_id);
            &&& session.len() > 0 ==> contains_text(text, session)
            &&& contains_text(text, "\nsession_id="@ + session_id + "\nsession_file="@)
            &&& contains_text(text, "\nsession_file="@ + session_path + "\ndaemon_log_file="@)
            &&& 0 <= i < kept.len() ==> contains_text(text, kept[i])
        }),
{
    let text = dogfood_text(session_id, session_path, log_path, session, log, generated_at);
    let kept = chain_lines(lines(log), session_id);
    let chain = join_with(kept, "\n"@);
    let start = "# my-agent dogfood export\nschema_version=1\ngenerated_at_unix_ms="@ + decimal(
        generated_at,
    );
    let of_session = "\nsession_id="@ + session_id + "\nsession_file="@;
    let of_file = "\nsession_file="@ + session_path + "\ndaemon_log_file="@;
    let one = start + "\nsession_id="@ + session_id;
    let two = one + "\nsession_file="@;
    let three = two + session_path + "\ndaemon_log_file="@;
    let head = three + log_path + "\nconversation_messages="@ + decimal(
        filled_lines(lines(session)),
    ) + "\nchain_log_lines="@ + decimal(lines(chain).len())
        + "\n\n===== LLM / REACT CONVERSATION (RAW SESSION JSONL) =====\n"@;
    let said = if session.len() == 0 {
        "(当前 session 尚无持久化消息)\n"@
    } else if session.last() == '\n' {
        session
    } else {
        session.push('\n')
    };
    let logged = if chain.len() == 0 {
        "(未找到带当前 session_id 的 daemon 链路日志)\n"@
    } else {
        chain.push('\n')
    };
    let most = head + said + "\n===== DAEMON CHAIN LOG (CURRENT SESSION ONLY) =====\n"@;
    assert(text == most + logged);
    assert(contains_text(two, of_session)) by {
        assert(two =~= start + of_session + Seq::empty());
        crate::text::law_text_contains_its_pieces(two, start, of_session, Seq::empty());
    }
    assert(contains_text(three, of_file)) by {
        assert(three =~= one + of_file + Seq::empty());
        crate::text::law_text_contains_its_pieces(three, one, of_file, Seq::empty());
    }
    lemma_longer_text_contains(two, session_path, of_session);
    lemma_longer_text_contains(two + session_path, "\ndaemon_log_file="@, of_session);
    lemma_head_contains(three, log_path, session, chain, of_session);
    lemma_head_contains(three, log_path, session, chain, of_file);
    let line = "\n===== DAEMON CHAIN LOG (CURRENT SESSION ONLY) =====\n"@;
    lemma_longer_text_contains(head, said, of_session);
    lemma_longer_text_contains(head + said, line, of_session);
    lemma_longer_text_contains(most, logged, of_session);
    lemma_longer_text_contains(head, said, of_file);
    lemma_longer_text_contains(head + said, line, of_file);
    lemma_longer_text_contains(most, logged, of_file);
    if session.len() > 0 {
        assert(contains_text(head + said, session)) by {
            let rest = said.skip(session.len() as int);
            assert(head + said =~= head + session + rest);
            crate::text::law_text_contains_its_pieces(head + said, head, session, rest);
        }
        lemma_longer_text_contains(head + said, line, session);
        lemma_longer_text_contains(most, logged, session);
    }
    if 0 <= i < kept.len() {
        let at = crate::slash::lemma_join_contains(kept, "\n"@, i);
        lemma_line_in_report(most, chain, logged, kept[i], at);
    }
}

proof fn lemma_head_contains(
    front: Seq<char>,
    log_path: Seq<char>,
    session: Seq<char>,
    chain: Seq<char>,
    needle: Seq<char>,
)
    requires
        contains_text(front, needle),
    ensures
        contains_text(
            front + log_path + "\nconversation_messages="@ + decimal(filled_lines(lines(session)))
                + "\nchain_log_lines="@ + decimal(lines(chain).len())
                + "\n\n===== LLM / REACT CONVERSATION (RAW SESSION JSONL) =====\n"@,
            needle,
        ),
{
    let a = front + log_path;
    let b = a + "\nconversation_messages="@;
    let c = b + decimal(filled_lines(lines(session)));
    let d = c + "\nchain_log_lines="@;
    let e = d + decimal(lines(chain).len());
    lemma_longer_text_contains(front, log_path, needle);
    lemma_longer_text_contains(a, "\nconversation_messages="@, needle);
    lemma_longer_text_contains(b, decimal(filled_lines(lines(session))), needle);
    lemma_longer_text_contains(c, "\nchain_log_lines="@, needle);
    lemma_longer_text_contains(d, decimal(lines(chain).len()), needle);
    lemma_longer_text_contains(
        e,
        "\n\n===== LLM / REACT CONVERSATION (RAW SESSION JSONL) =====\n"@,
        needle,
    );
}

proof fn lemma_longer_text_contains(s: Seq<char>, more: Seq<char>, needle: Seq<char>)
    requires
        contains_text(s, needle),
    ensures
        contains_text(s + more, needle),
{
    let at = choose|at: int| crate::text::occurs_at(s, needle, at);
    assert((s + more).subrange(at, at + needle.len()) =~= s.subrange(at, at + needle.len()));
    assert(crate::text::occurs_at(s + more, needle, at));
}

proof fn lemma_line_in_report(
    head: Seq<char>,
    chain: Seq<char>,
    shown: Seq<char>,
    line: Seq<char>,
    at: int,
)
    requires
        crate::text::occurs_at(chain, line, at),
        chain.len() > 0 ==> shown == chain.push('\n'),
    ensures
        contains_text(head + shown, line),
{
    let text = head + shown;
    if chain.len() == 0 {
        assert(line =~= Seq::empty());
        assert(text =~= text + line + Seq::empty());
        crate::text::law_text_contains_its_pieces(text, text, line, Seq::empty());
    } else {
        let front = head + chain.take(at);
        let tail = chain.skip(at + line.len()).push('\n');
        assert(chain =~= chain.take(at) + line + chain.skip(at + line.len()));
        assert(text =~= front + line + tail);
        crate::text::law_text_contains_its_pieces(text, front, line, tail);
    }
}

/// The report stands beside the file of the session, under its name.
pub proof fn law_report_stands_beside_the_session(
    directory: Seq<char>,
    name: Seq<char>,
    extension: Seq<char>,
)
    requires
        directory.len() > 0,
        directory.last() != '/',
        !(directory.len() > 1 && directory.last() == '.' && directory[directory.len() - 2] == '/'),
        name.len() > 0,
        !name.contains('/'),
        !extension.contains('/'),
        !extension.contains('.'),
        extension.len() > 0,
    ensures
        dogfood_path(directory + seq!['/'] + (name + seq!['.'] + extension)) == directory
            + seq!['/'] + ("dogfood-"@ + name + ".log"@),
{
    let file = name + seq!['.'] + extension;
    reveal_strlit(".");
    reveal_strlit("..");
    reveal_strlit("dogfood-");
    assert(file.len() >= 3);
    assert forall|i: int| 0 <= i < file.len() implies file[i] != '/' by {
        if i < name.len() {
            assert(name.contains(name[i]));
        } else if i > name.len() {
            assert(extension.contains(extension[i - name.len() - 1]));
        }
    }
    crate::path::law_file_name_stands_behind_the_last_slash(directory, file);
    crate::path::law_parent_stands_before_the_last_slash(directory, file);
    crate::path::law_stem_stands_before_the_last_dot(name, extension);
    let report = "dogfood-"@ + name + ".log"@;
    assert(report[0] == 'd');
    crate::path::law_relative_paths_are_looked_up_from_their_base(directory, report);
}

} // verus!

//! Text as a sequence of characters: splitting, trimming, searching and joining.
use vstd::prelude::*;
use vstd::string::*;
use vstd::utf8::*;

verus! {

/// `String::push` adds one character at the end.
pub assume_specification[ std::string::String::push ](s: &mut std::string::String, ch: char)
    ensures
        final(s)@ == old(s)@.push(ch),
;

/// The characters of a text.
pub fn chars_of(text: &str) -> (chars: Vec<char>)
    ensures
        chars@ == text@,
{
    let mut chars: Vec<char> = Vec::new();
    for ch in iter: text.chars()
        invariant
            chars@ == text@.take(iter.index() as int),
            iter.seq() == text@,
    {
        chars.push(ch);
    }
    chars
}

/// The text made of some characters.
pub fn text_of(chars: &Vec<char>) -> (text: String)
    ensures
        text@ == chars@,
{
    let mut text = String::new();
    let mut at: usize = 0;
    while at < chars.len()
        invariant
            at <= chars.len(),
            text@ == chars@.take(at as int),
        decreases chars.len() - at,
    {
        text.push(chars[at]);
        at += 1;
    }
    assert(chars@.take(at as int) =~= chars@);
    text
}

/// Whether two texts hold the same characters.
pub fn same_text(left: &str, right: &str) -> (same: bool)
    ensures
        same == (left@ == right@),
{
    let a = left.as_bytes();
    let b = right.as_bytes();
    proof {
        encode_utf8_decode_utf8(left@);
        encode_utf8_decode_utf8(right@);
    }
    if a.len() != b.len() {
        return false;
    }
    let mut at: usize = 0;
    while at < a.len()
        invariant
            at <= a.len(),
            a.len() == b.len(),
            a@ == encode_utf8(left@),
            b@ == encode_utf8(right@),
            forall|i: int| 0 <= i < at ==> a@[i] == b@[i],
        decreases a.len() - at,
    {
        if a[at] != b[at] {
            assert(a@ != b@);
            return false;
        }
        at += 1;
    }
    assert(a@ =~= b@);
    true
}


/// The characters with Unicode's `White_Space` property.
pub open spec fn is_white_space(c: char) -> bool {
    ||| '\u{9}' <= c <= '\u{d}'
    ||| c == ' '
    ||| c == '\u{85}'
    ||| c == '\u{a0}'
    ||| c == '\u{1680}'
    ||| '\u{2000}' <= c <= '\u{200a}'
    ||| c == '\u{2028}'
    ||| c == '\u{2029}'
    ||| c == '\u{202f}'
    ||| c == '\u{205f}'
    ||| c == '\u{3000}'
}

/// Whether a character separates words.
pub fn is_whitespace(c: char) -> (white: bool)
    ensures
        white == is_white_space(c),
{
    ('\u{9}' <= c && c <= '\u{d}') || c == ' ' || c == '\u{85}' || c == '\u{a0}' || c == '\u{1680}'
        || ('\u{2000}' <= c && c <= '\u{200a}') || c == '\u{2028}' || c == '\u{2029}' || c
        == '\u{202f}' || c == '\u{205f}' || c == '\u{3000}'
}

/// The control characters, Unicode's category `Cc`.
pub open spec fn is_control_char(c: char) -> bool {
    c < ' ' || '\u{7f}' <= c < '\u{a0}'
}

/// Whether a character is a control character.
pub fn is_control(c: char) -> (control: bool)
    ensures
        control == is_control_char(c),
{
    c < ' ' || ('\u{7f}' <= c && c < '\u{a0}')
}

/// The ASCII letters and digits.
pub open spec fn is_ascii_word(c: char) -> bool {
    'a' <= c <= 'z' || 'A' <= c <= 'Z' || '0' <= c <= '9'
}

/// Whether a character is an ASCII letter or digit.
pub fn is_ascii_alphanumeric(c: char) -> (word: bool)
    ensures
        word == is_ascii_word(c),
{
    ('a' <= c && c <= 'z') || ('A' <= c && c <= 'Z') || ('0' <= c && c <= '9')
}

/// The predicate of [`is_white_space`].
pub open spec fn white() -> spec_fn(char) -> bool {
    |c: char| is_white_space(c)
}

/// Every character that is not white space.
pub open spec fn inked() -> spec_fn(char) -> bool {
    |c: char| !is_white_space(c)
}

/// Every character but the line feed.
pub open spec fn in_line() -> spec_fn(char) -> bool {
    |c: char| c != '\n'
}

/// How many characters at the front of `s` satisfy `p` without a break.
pub open spec fn run_len(s: Seq<char>, p: spec_fn(char) -> bool) -> nat
    decreases s.len(),
{
    if s.len() == 0 || !p(s[0]) {
        0
    } else {
        1 + run_len(s.skip(1), p)
    }
}

/// The front run lies within the text, satisfies the predicate, and ends where it fails.
pub proof fn lemma_run_len(s: Seq<char>, p: spec_fn(char) -> bool)
    ensures
        run_len(s, p) <= s.len(),
        forall|i: int| 0 <= i < run_len(s, p) ==> p(#[trigger] s[i]),
        run_len(s, p) < s.len() ==> !p(s[run_len(s, p) as int]),
    decreases s.len(),
{
    if s.len() > 0 && p(s[0]) {
        lemma_run_len(s.skip(1), p);
        assert forall|i: int| 0 <= i < run_len(s, p) implies p(#[trigger] s[i]) by {
            if i > 0 {
                assert(s[i] == s.skip(1)[i - 1]);
            }
        }
    }
}

/// A length that satisfies and then fails the predicate is that of the front run.
pub proof fn lemma_run_len_is(s: Seq<char>, p: spec_fn(char) -> bool, n: nat)
    requires
        n <= s.len(),
        forall|i: int| 0 <= i < n ==> p(#[trigger] s[i]),
        n < s.len() ==> !p(s[n as int]),
    ensures
        run_len(s, p) == n,
    decreases s.len(),
{
    if n > 0 {
        assert(p(s[0]));
        assert forall|i: int| 0 <= i < n - 1 implies p(#[trigger] s.skip(1)[i]) by {
            assert(p(s[i + 1]));
        }
        lemma_run_len_is(s.skip(1), p, (n - 1) as nat);
    }
}

/// A text without the white space at its front.
pub open spec fn trim_start(s: Seq<char>) -> Seq<char> {
    s.skip(run_len(s, white()) as int)
}

/// A text without the white space at its end.
pub open spec fn trim_end(s: Seq<char>) -> Seq<char> {
    s.take(s.len() - run_len(s.reverse(), white()))
}

/// A text without the white space at either end.
pub open spec fn trim(s: Seq<char>) -> Seq<char> {
    trim_end(trim_start(s))
}

/// Whether a text holds nothing but white space.
pub open spec fn is_blank_text(s: Seq<char>) -> bool {
    forall|i: int| 0 <= i < s.len() ==> is_white_space(#[trigger] s[i])
}

/// A text is blank exactly where nothing is left of it once trimmed.
pub proof fn lemma_trim_empty_iff_blank(s: Seq<char>)
    ensures
        trim(s).len() == 0 <==> is_blank_text(s),
{
    lemma_run_len(s, white());
    let t = trim_start(s);
    lemma_run_len(t.reverse(), white());
    if is_blank_text(s) {
        lemma_run_len_is(s, white(), s.len());
    } else {
        let i = choose|i: int| 0 <= i < s.len() && !is_white_space(#[trigger] s[i]);
        assert(run_len(s, white()) <= i) by {
            if run_len(s, white()) > i {
                assert(white()(s[i]));
            }
        }
        assert(t.len() > 0 && t[0] == s[run_len(s, white()) as int]);
        assert(!white()(t[0]));
        assert(t.reverse()[t.len() - 1] == t[0]);
        if trim(s).len() == 0 {
            assert(white()(t.reverse()[t.len() - 1]));
        }
    }
}

/// Trimming leaves a text as it is whose ends are not white space.
pub proof fn lemma_trim_noop(s: Seq<char>)
    requires
        s.len() > 0,
        !is_white_space(s[0]),
        !is_white_space(s.last()),
    ensures
        trim(s) == s,
{
    lemma_run_len_is(s, white(), 0);
    assert(trim_start(s) =~= s);
    assert(s.reverse()[0] == s.last());
    lemma_run_len_is(s.reverse(), white(), 0);
    assert(trim_end(s) =~= s);
}

/// Whether a text holds nothing but white space.
pub fn is_blank(text: &str) -> (blank: bool)
    ensures
        blank == is_blank_text(text@),
        blank == (trim(text@).len() == 0),
{
    for ch in iter: text.chars()
        invariant
            iter.seq() == text@,
            forall|i: int| 0 <= i < iter.index() ==> is_white_space(#[trigger] text@[i]),
    {
        if !is_whitespace(ch) {
            proof {
                assert(!is_white_space(text@[iter.index()]));
                lemma_trim_empty_iff_blank(text@);
            }
            return false;
        }
    }
    proof {
        lemma_trim_empty_iff_blank(text@);
    }
    true
}

/// The characters of `chars` from `start` up to `end`.
pub fn slice_text(chars: &Vec<char>, start: usize, end: usize) -> (text: String)
    requires
        start <= end <= chars.len(),
    ensures
        text@ == chars@.subrange(start as int, end as int),
{
    let mut text = String::new();
    let mut at = start;
    while at < end
        invariant
            start <= at <= end <= chars.len(),
            text@ == chars@.subrange(start as int, at as int),
        decreases end - at,
    {
        text.push(chars[at]);
        at += 1;
        assert(text@ =~= chars@.subrange(start as int, at as int));
    }
    text
}

/// A text without the white space at either end.
pub fn trimmed(text: &str) -> (out: String)
    ensures
        out@ == trim(text@),
{
    let chars = chars_of(text);
    let mut start: usize = 0;
    while start < chars.len() && is_whitespace(chars[start])
        invariant
            start <= chars.len(),
            chars@ == text@,
            forall|i: int| 0 <= i < start ==> is_white_space(#[trigger] text@[i]),
        decreases chars.len() - start,
    {
        start += 1;
    }
    proof {
        lemma_run_len_is(text@, white(), start as nat);
    }
    let ghost t = trim_start(text@);
    let mut end: usize = chars.len();
    while end > start && is_whitespace(chars[end - 1])
        invariant
            start <= end <= chars.len(),
            chars@ == text@,
            t == text@.skip(start as int),
            forall|i: int| end <= i < chars.len() ==> is_white_space(#[trigger] text@[i]),
        decreases end,
    {
        end -= 1;
    }
    proof {
        let n = (chars.len() - end) as nat;
        assert forall|i: int| 0 <= i < n implies white()(#[trigger] t.reverse()[i]) by {
            assert(t.reverse()[i] == text@[text@.len() - 1 - i]);
        }
        lemma_run_len_is(t.reverse(), white(), n);
        assert(trim(text@) =~= text@.subrange(start as int, end as int));
    }
    slice_text(&chars, start, end)
}

/// A text without the white space at its start.
pub fn trimmed_start(text: &str) -> (out: String)
    ensures
        out@ == trim_start(text@),
{
    let chars = chars_of(text);
    let mut start: usize = 0;
    while start < chars.len() && is_whitespace(chars[start])
        invariant
            start <= chars.len(),
            chars@ == text@,
            forall|i: int| 0 <= i < start ==> is_white_space(#[trigger] text@[i]),
        decreases chars.len() - start,
    {
        start += 1;
    }
    proof {
        lemma_run_len_is(text@, white(), start as nat);
    }
    let out = slice_text(&chars, start, chars.len());
    assert(out@ =~= trim_start(text@));
    out
}

/// Whether a character is some character.
pub open spec fn equals(c: char) -> spec_fn(char) -> bool {
    |x: char| x == c
}

/// A text without the characters of one kind at its start.
pub open spec fn without_leading(s: Seq<char>, c: char) -> Seq<char> {
    s.skip(run_len(s, equals(c)) as int)
}

/// A text without the characters of one kind at its start.
pub fn trim_start_matches(text: &str, c: char) -> (out: String)
    ensures
        out@ == without_leading(text@, c),
{
    let chars = chars_of(text);
    let mut start: usize = 0;
    while start < chars.len() && chars[start] == c
        invariant
            start <= chars.len(),
            chars@ == text@,
            forall|i: int| 0 <= i < start ==> equals(c)(#[trigger] text@[i]),
        decreases chars.len() - start,
    {
        start += 1;
    }
    proof {
        lemma_run_len_is(text@, equals(c), start as nat);
    }
    let out = slice_text(&chars, start, chars.len());
    assert(out@ =~= without_leading(text@, c));
    out
}

/// A text without the white space at its end.
pub fn trimmed_end(text: &str) -> (out: String)
    ensures
        out@ == trim_end(text@),
{
    let chars = chars_of(text);
    let mut end: usize = chars.len();
    while end > 0 && is_whitespace(chars[end - 1])
        invariant
            end <= chars.len(),
            chars@ == text@,
            forall|i: int| end <= i < chars.len() ==> is_white_space(#[trigger] text@[i]),
        decreases end,
    {
        end -= 1;
    }
    proof {
        let n = (chars.len() - end) as nat;
        assert forall|i: int| 0 <= i < n implies white()(#[trigger] text@.reverse()[i]) by {
            assert(text@.reverse()[i] == text@[text@.len() - 1 - i]);
        }
        lemma_run_len_is(text@.reverse(), white(), n);
        assert(trim_end(text@) =~= text@.subrange(0, end as int));
    }
    slice_text(&chars, 0, end)
}

/// The views of some texts.
pub open spec fn texts(list: Seq<String>) -> Seq<Seq<char>> {
    Seq::new(list.len(), |i: int| list[i]@)
}

/// The words of a text: its longest pieces without white space, in order.
pub open spec fn words(s: Seq<char>) -> Seq<Seq<char>>
    decreases s.len(),
{
    if s.len() == 0 {
        Seq::empty()
    } else if is_white_space(s[0]) {
        words(s.skip(1))
    } else {
        let n = run_len(s, inked()) as int;
        proof {
            lemma_run_len(s, inked());
        }
        seq![s.take(n)] + words(s.skip(n))
    }
}

/// The words of a text, in order.
pub fn split_whitespace(text: &str) -> (out: Vec<String>)
    ensures
        texts(out@) == words(text@),
{
    let chars = chars_of(text);
    let mut out: Vec<String> = Vec::new();
    let mut at: usize = 0;
    assert(text@.skip(0) =~= text@);
    assert(texts(out@) + words(text@) =~= words(text@));
    while at < chars.len()
        invariant
            at <= chars.len(),
            chars@ == text@,
            texts(out@) + words(text@.skip(at as int)) == words(text@),
        decreases chars.len() - at,
    {
        let ghost rest = text@.skip(at as int);
        let ghost before = out@;
        assert(rest[0] == chars@[at as int]);
        if is_whitespace(chars[at]) {
            at += 1;
            assert(rest.skip(1) =~= text@.skip(at as int));
        } else {
            let start = at;
            while at < chars.len() && !is_whitespace(chars[at])
                invariant
                    start <= at <= chars.len(),
                    chars@ == text@,
                    forall|i: int| start <= i < at ==> !is_white_space(#[trigger] text@[i]),
                    start < chars.len() && !is_white_space(text@[start as int]),
                decreases chars.len() - at,
            {
                at += 1;
            }
            proof {
                lemma_run_len_is(rest, inked(), (at - start) as nat);
            }
            let word = slice_text(&chars, start, at);
            assert(word@ =~= rest.take(at - start));
            assert(rest.skip(at - start) =~= text@.skip(at as int));
            out.push(word);
            proof {
                assert(texts(out@) =~= texts(before).push(word@));
                assert(texts(out@) + words(text@.skip(at as int)) =~= texts(before) + words(rest));
            }
        }
    }
    assert(text@.skip(at as int).len() == 0);
    assert(texts(out@) + words(text@.skip(at as int)) =~= texts(out@));
    out
}

/// A line without the carriage return of its line ending.
pub open spec fn without_return(s: Seq<char>) -> Seq<char> {
    if s.len() > 0 && s.last() == '\r' {
        s.drop_last()
    } else {
        s
    }
}

/// The lines of a text. A line ends at a line feed, with or without a carriage
/// return before it; the ending of the last line is optional.
pub open spec fn lines(s: Seq<char>) -> Seq<Seq<char>>
    decreases s.len(),
{
    if s.len() == 0 {
        Seq::empty()
    } else {
        let n = run_len(s, in_line()) as int;
        proof {
            lemma_run_len(s, in_line());
        }
        if n >= s.len() {
            seq![s]
        } else {
            seq![without_return(s.take(n))] + lines(s.skip(n + 1))
        }
    }
}

/// The lines of a text, in order.
pub fn split_lines(text: &str) -> (out: Vec<String>)
    ensures
        texts(out@) == lines(text@),
{
    let chars = chars_of(text);
    let mut out: Vec<String> = Vec::new();
    let mut at: usize = 0;
    assert(text@.skip(0) =~= text@);
    assert(texts(out@) + lines(text@) =~= lines(text@));
    while at < chars.len()
        invariant
            at <= chars.len(),
            chars@ == text@,
            texts(out@) + lines(text@.skip(at as int)) == lines(text@),
        decreases chars.len() - at,
    {
        let ghost rest = text@.skip(at as int);
        let ghost before = out@;
        let start = at;
        while at < chars.len() && chars[at] != '\n'
            invariant
                start <= at <= chars.len(),
                chars@ == text@,
                forall|i: int| start <= i < at ==> #[trigger] text@[i] != '\n',
            decreases chars.len() - at,
        {
            at += 1;
        }
        proof {
            lemma_run_len_is(rest, in_line(), (at - start) as nat);
        }
        let mut end = at;
        if at < chars.len() && at > start && chars[at - 1] == '\r' {
            end = at - 1;
        }
        let line = slice_text(&chars, start, end);
        out.push(line);
        proof {
            let whole = rest.take(at - start);
            if at < chars.len() {
                assert(line@ =~= without_return(whole));
                assert(rest.skip(at - start + 1) =~= text@.skip(at + 1));
            } else {
                assert(line@ =~= rest);
                assert(text@.skip(at as int).len() == 0);
            }
            assert(texts(out@) =~= texts(before).push(line@));
        }
        if at < chars.len() {
            at += 1;
        }
        assert(texts(out@) + lines(text@.skip(at as int)) =~= texts(before) + lines(rest));
    }
    assert(text@.skip(at as int).len() == 0);
    assert(texts(out@) + lines(text@.skip(at as int)) =~= texts(out@));
    out
}

/// Some texts one after another, with `separator` between each two.
pub open spec fn join_with(parts: Seq<Seq<char>>, separator: Seq<char>) -> Seq<char>
    decreases parts.len(),
{
    if parts.len() == 0 {
        Seq::empty()
    } else if parts.len() == 1 {
        parts[0]
    } else {
        join_with(parts.drop_last(), separator) + separator + parts.last()
    }
}

/// Some texts one after another, with `separator` between each two.
pub fn join(parts: &Vec<String>, separator: &str) -> (out: String)
    ensures
        out@ == join_with(texts(parts@), separator@),
{
    let mut out = String::new();
    let mut at: usize = 0;
    while at < parts.len()
        invariant
            at <= parts.len(),
            out@ == join_with(texts(parts@).take(at as int), separator@),
        decreases parts.len() - at,
    {
        if at > 0 {
            out.append(separator);
        }
        out.append(parts[at].as_str());
        at += 1;
        proof {
            let taken = texts(parts@).take(at as int);
            assert(taken.drop_last() =~= texts(parts@).take(at - 1));
            if at == 1 {
                assert(out@ =~= taken[0]);
            }
        }
    }
    assert(texts(parts@).take(at as int) =~= texts(parts@));
    out
}

/// Whether `s` begins with `prefix`.
pub open spec fn begins_with(s: Seq<char>, prefix: Seq<char>) -> bool {
    s.len() >= prefix.len() && s.take(prefix.len() as int) == prefix
}

/// Whether `needle` stands in `s` from position `at` on.
pub open spec fn occurs_at(s: Seq<char>, needle: Seq<char>, at: int) -> bool {
    0 <= at && at + needle.len() <= s.len() && s.subrange(at, at + needle.len()) == needle
}

/// Whether `needle` stands anywhere in `s`.
pub open spec fn contains_text(s: Seq<char>, needle: Seq<char>) -> bool {
    exists|at: int| occurs_at(s, needle, at)
}

/// Whether `needle` stands in `chars` from position `at` on.
pub fn matches_at(chars: &Vec<char>, needle: &Vec<char>, at: usize) -> (found: bool)
    ensures
        found == occurs_at(chars@, needle@, at as int),
{
    if at > chars.len() || needle.len() > chars.len() - at {
        return false;
    }
    let mut offset: usize = 0;
    while offset < needle.len()
        invariant
            offset <= needle.len(),
            at + needle.len() <= chars.len(),
            forall|i: int| 0 <= i < offset ==> #[trigger] needle@[i] == chars@[at + i],
        decreases needle.len() - offset,
    {
        if chars[at + offset] != needle[offset] {
            assert(chars@.subrange(at as int, at + needle.len())[offset as int] != needle@[offset as int]);
            return false;
        }
        offset += 1;
    }
    assert(chars@.subrange(at as int, at + needle.len()) =~= needle@);
    true
}

/// The first position at or after `from` where `needle` stands.
pub open spec fn first_at(s: Seq<char>, needle: Seq<char>, from: int) -> Option<int>
    decreases s.len() + 1 - from,
{
    if from > s.len() {
        None
    } else if occurs_at(s, needle, from) {
        Some(from)
    } else {
        first_at(s, needle, from + 1)
    }
}

/// The first occurrence is an occurrence, and none stands before it.
pub proof fn lemma_first_at(s: Seq<char>, needle: Seq<char>, from: int)
    requires
        0 <= from,
    ensures
        match first_at(s, needle, from) {
            Some(at) => from <= at && occurs_at(s, needle, at) && forall|i: int|
                from <= i < at ==> !#[trigger] occurs_at(s, needle, i),
            None => forall|i: int| from <= i ==> !#[trigger] occurs_at(s, needle, i),
        },
    decreases s.len() + 1 - from,
{
    if from <= s.len() && !occurs_at(s, needle, from) {
        lemma_first_at(s, needle, from + 1);
    }
}

/// The first position at or after `from` where `needle` stands.
pub fn find_from(chars: &Vec<char>, needle: &Vec<char>, from: usize) -> (found: Option<usize>)
    ensures
        match found {
            Some(at) => first_at(chars@, needle@, from as int) == Some(at as int),
            None => first_at(chars@, needle@, from as int) is None,
        },
        found matches Some(at) ==> from <= at && occurs_at(chars@, needle@, at as int),
{
    let mut at = from;
    if at > chars.len() {
        return None;
    }
    loop
        invariant
            from <= at <= chars.len(),
            first_at(chars@, needle@, from as int) == first_at(chars@, needle@, at as int),
        decreases chars.len() - at,
    {
        if matches_at(chars, needle, at) {
            return Some(at);
        }
        if at == chars.len() {
            assert(first_at(chars@, needle@, at + 1) is None);
            return None;
        }
        at += 1;
    }
}

/// Whether `needle` stands anywhere in a text.
pub fn contains(text: &str, needle: &str) -> (found: bool)
    ensures
        found == contains_text(text@, needle@),
{
    let chars = chars_of(text);
    let wanted = chars_of(needle);
    proof {
        lemma_first_at(text@, needle@, 0);
    }
    find_from(&chars, &wanted, 0).is_some()
}

/// Whether a text begins with `prefix`.
pub fn starts_with(text: &str, prefix: &str) -> (found: bool)
    ensures
        found == begins_with(text@, prefix@),
{
    let chars = chars_of(text);
    let wanted = chars_of(prefix);
    assert(text@.len() >= prefix@.len() ==> text@.subrange(0, prefix@.len() as int) =~= text@.take(
        prefix@.len() as int,
    ));
    matches_at(&chars, &wanted, 0)
}

/// What follows `prefix` in a text that begins with it.
pub open spec fn after_prefix(s: Seq<char>, prefix: Seq<char>) -> Option<Seq<char>> {
    if begins_with(s, prefix) {
        Some(s.skip(prefix.len() as int))
    } else {
        None
    }
}

/// The view of an optional text.
pub open spec fn opt_text(text: Option<String>) -> Option<Seq<char>> {
    match text {
        Some(t) => Some(t@),
        None => None,
    }
}

/// The view of an optional borrowed text.
pub open spec fn opt_str(text: Option<&str>) -> Option<Seq<char>> {
    match text {
        Some(t) => Some(t@),
        None => None,
    }
}

/// What follows `prefix` in a text that begins with it.
pub fn strip_prefix(text: &str, prefix: &str) -> (rest: Option<String>)
    ensures
        opt_text(rest) == after_prefix(text@, prefix@),
{
    let chars = chars_of(text);
    let wanted = chars_of(prefix);
    assert(text@.len() >= prefix@.len() ==> text@.subrange(0, prefix@.len() as int) =~= text@.take(
        prefix@.len() as int,
    ));
    if matches_at(&chars, &wanted, 0) {
        let rest = slice_text(&chars, wanted.len(), chars.len());
        assert(rest@ =~= text@.skip(prefix@.len() as int));
        Some(rest)
    } else {
        None
    }
}

/// The lower-case form of an ASCII letter; any other character itself.
pub open spec fn ascii_lower(c: char) -> char {
    if 'A' <= c <= 'Z' {
        (c as u32 + 32) as char
    } else {
        c
    }
}

/// A text with its ASCII letters in lower case.
pub open spec fn ascii_lower_text(s: Seq<char>) -> Seq<char> {
    Seq::new(s.len(), |i: int| ascii_lower(s[i]))
}

/// The lower-case form of an ASCII letter; any other character itself.
pub fn to_ascii_lowercase_char(c: char) -> (lower: char)
    ensures
        lower == ascii_lower(c),
{
    if 'A' <= c && c <= 'Z' {
        (c as u8 + 32) as char
    } else {
        c
    }
}

/// A text with its ASCII letters in lower case.
pub fn to_ascii_lowercase(text: &str) -> (out: String)
    ensures
        out@ == ascii_lower_text(text@),
{
    let mut out = String::new();
    for ch in iter: text.chars()
        invariant
            iter.seq() == text@,
            out@ == ascii_lower_text(text@).take(iter.index() as int),
    {
        out.push(to_ascii_lowercase_char(ch));
        assert(out@ =~= ascii_lower_text(text@).take(iter.index() + 1));
    }
    assert(ascii_lower_text(text@).take(text@.len() as int) =~= ascii_lower_text(text@));
    out
}

/// A character that is no line feed has none among its bytes.
pub proof fn lemma_scalar_bytes(v: u32)
    requires
        v != 10,
    ensures
        forall|i: int| 0 <= i < encode_scalar(v).len() ==> #[trigger] encode_scalar(v)[i] != 10,
{
    assert(v <= 0x7F ==> (v & 0x7F) as u8 == v) by (bit_vector);
    let low = (v & 0x3F) as u8;
    let middle = ((v >> 6) & 0x3F) as u8;
    let high = ((v >> 12) & 0x3F) as u8;
    assert(0x80 | low >= 128 && 0x80 | middle >= 128 && 0x80 | high >= 128) by (bit_vector);
    let two = ((v >> 6) & 0x1F) as u8;
    let three = ((v >> 12) & 0x0F) as u8;
    let four = ((v >> 18) & 0x7) as u8;
    assert(0xC0 | two >= 128 && 0xE0 | three >= 128 && 0xF0 | four >= 128) by (bit_vector);
}

/// The bytes of two texts one behind the other are those of the one and the other.
pub proof fn lemma_bytes_of_both(a: Seq<char>, b: Seq<char>)
    ensures
        encode_utf8(a + b) == encode_utf8(a) + encode_utf8(b),
    decreases a.len(),
{
    if a.len() == 0 {
        assert(a + b =~= b);
        assert(encode_utf8(a) + encode_utf8(b) =~= encode_utf8(b));
    } else {
        lemma_bytes_of_both(a.drop_first(), b);
        assert((a + b).drop_first() =~= a.drop_first() + b);
        assert(encode_utf8(a + b) =~= encode_utf8(a) + encode_utf8(b));
    }
}

/// Where the bytes of a text end with a line feed, so does the text.
pub proof fn lemma_last_byte(text: Seq<char>)
    requires
        encode_utf8(text).len() > 0,
        encode_utf8(text).last() == 10,
    ensures
        text.len() > 0,
        text.last() == '\n',
{
    let front = text.drop_last();
    let c = text.last();
    let end = Seq::<char>::empty().push(c);
    assert(text =~= front + end);
    lemma_bytes_of_both(front, end);
    assert(end.drop_first() =~= Seq::empty());
    assert(encode_utf8(end.drop_first()) =~= Seq::empty());
    assert(encode_utf8(end) =~= encode_scalar(c as u32));
    encode_utf8_first_scalar(end);
    assert(encode_utf8(text).last() == encode_scalar(c as u32).last());
    if c != '\n' {
        char_u32_cast(c, c as u32);
        lemma_scalar_bytes(c as u32);
    }
}

/// Trimming takes white space from the ends of a text and nothing else: what is left is a
/// piece of the text with white space only before and behind it, and neither begins nor
/// ends with any.
pub proof fn law_trimming_takes_white_space_from_the_ends(s: Seq<char>)
    ensures
        exists|a: int, b: int|
            0 <= a <= b <= s.len() && trim(s) == #[trigger] s.subrange(a, b) && (forall|i: int|
                0 <= i < a || b <= i < s.len() ==> is_white_space(#[trigger] s[i])),
        trim(s).len() > 0 ==> !is_white_space(trim(s)[0]) && !is_white_space(trim(s).last()),
        exists|a: int|
            0 <= a <= s.len() && trim_start(s) == #[trigger] s.skip(a) && (forall|i: int|
                0 <= i < a ==> is_white_space(#[trigger] s[i])),
        trim_start(s).len() > 0 ==> !is_white_space(trim_start(s)[0]),
        exists|b: int|
            0 <= b <= s.len() && trim_end(s) == #[trigger] s.take(b) && (forall|i: int|
                b <= i < s.len() ==> is_white_space(#[trigger] s[i])),
        trim_end(s).len() > 0 ==> !is_white_space(trim_end(s).last()),
{
    lemma_trim_end_is(s);
    lemma_run_len(s, white());
    let a = run_len(s, white()) as int;
    let t = s.skip(a);
    lemma_trim_end_is(t);
    let n = t.len() - run_len(t.reverse(), white());
    assert(trim(s) == t.take(n));
    assert(t.take(n) =~= s.subrange(a, a + n));
    assert forall|i: int| 0 <= i < a || a + n <= i < s.len() implies is_white_space(
        #[trigger] s[i],
    ) by {
        if i < a {
            assert(white()(s[i]));
        } else {
            assert(t[i - a] == s[i]);
        }
    }
    assert forall|i: int| 0 <= i < a implies is_white_space(#[trigger] s[i]) by {
        assert(white()(s[i]));
    }
    if trim(s).len() > 0 {
        assert(trim(s)[0] == s[a]);
        assert(!white()(s[a]));
    }
    if t.len() > 0 {
        assert(t[0] == s[a]);
    }
    assert(trim_start(s) == s.skip(a));
    let b = s.len() - run_len(s.reverse(), white());
    assert(trim_end(s) == s.take(b));
}

proof fn lemma_trim_end_is(s: Seq<char>)
    ensures
        run_len(s.reverse(), white()) <= s.len(),
        forall|i: int|
            s.len() - run_len(s.reverse(), white()) <= i < s.len() ==> is_white_space(
                #[trigger] s[i],
            ),
        trim_end(s).len() > 0 ==> !is_white_space(trim_end(s).last()),
{
    let back = s.reverse();
    lemma_run_len(back, white());
    let n = run_len(back, white()) as int;
    assert forall|i: int| s.len() - n <= i < s.len() implies is_white_space(#[trigger] s[i]) by {
        assert(back[s.len() - 1 - i] == s[i]);
        assert(white()(back[s.len() - 1 - i]));
    }
    if n < s.len() {
        assert(back[n] == s[s.len() - 1 - n]);
        assert(!white()(back[n]));
    }
}

/// A text without white space is one word, and at white space a text falls into words: the
/// words of the one side, then those of the other.
pub proof fn law_words_are_parted_by_white_space(a: Seq<char>, c: char, b: Seq<char>)
    ensures
        words(Seq::empty()) == Seq::<Seq<char>>::empty(),
        a.len() > 0 && (forall|i: int| 0 <= i < a.len() ==> !is_white_space(#[trigger] a[i]))
            ==> words(a) == seq![a],
        is_white_space(c) ==> words(a.push(c) + b) == words(a) + words(b),
    decreases a.len(),
{
    if a.len() > 0 && (forall|i: int| 0 <= i < a.len() ==> !is_white_space(#[trigger] a[i])) {
        lemma_run_len_is(a, inked(), a.len());
        assert(!is_white_space(a[0]));
        assert(a.take(a.len() as int) =~= a);
        assert(a.skip(a.len() as int) =~= Seq::empty());
        assert(words(Seq::<char>::empty()) =~= Seq::empty());
        assert(words(a) =~= seq![a]);
    }
    if is_white_space(c) {
        let all = a.push(c) + b;
        if a.len() == 0 {
            assert(all[0] == c);
            assert(all.skip(1) =~= b);
            assert(words(a) + words(b) =~= words(b));
        } else if is_white_space(a[0]) {
            law_words_are_parted_by_white_space(a.skip(1), c, b);
            assert(all[0] == a[0]);
            assert(all.skip(1) =~= a.skip(1).push(c) + b);
        } else {
            lemma_run_len(a, inked());
            let n = run_len(a, inked());
            assert(n > 0) by {
                assert(inked()(a[0]));
            }
            assert forall|i: int| 0 <= i < n implies inked()(#[trigger] all[i]) by {
                assert(all[i] == a[i]);
                assert(inked()(a[i]));
            }
            assert(!inked()(all[n as int])) by {
                if n < a.len() {
                    assert(all[n as int] == a[n as int]);
                } else {
                    assert(all[n as int] == c);
                }
            }
            lemma_run_len_is(all, inked(), n);
            assert(all[0] == a[0]);
            assert(all.take(n as int) =~= a.take(n as int));
            assert(all.skip(n as int) =~= a.skip(n as int).push(c) + b);
            law_words_are_parted_by_white_space(a.skip(n as int), c, b);
            assert(words(all) =~= words(a) + words(b));
        }
    }
}

/// A text without line feeds is one line, unless it is empty; at a line feed a text falls
/// into lines: those of the one side, then those of the other. A line feed behind a text
/// without any ends its line, and takes a carriage return with it.
pub proof fn law_lines_are_parted_by_line_feeds(a: Seq<char>, b: Seq<char>)
    ensures
        lines(Seq::empty()) == Seq::<Seq<char>>::empty(),
        a.len() > 0 && !a.contains('\n') ==> lines(a) == seq![a],
        !a.contains('\n') ==> lines(a.push('\n')) == seq![
            if a.len() > 0 && a.last() == '\r' {
                a.drop_last()
            } else {
                a
            },
        ],
        lines(a.push('\n') + b) == lines(a.push('\n')) + lines(b),
    decreases a.len(),
{
    let ended = a.push('\n');
    let all = ended + b;
    lemma_run_len(a, in_line());
    let n = run_len(a, in_line());
    if n == a.len() {
        lemma_run_len_is(a, in_line(), n);
    }
    assert forall|i: int| 0 <= i < n implies in_line()(#[trigger] ended[i]) && in_line()(
        #[trigger] all[i],
    ) by {
        assert(in_line()(a[i]));
    }
    assert(ended[n as int] == '\n' && all[n as int] == '\n') by {
        if n < a.len() {
            assert(!in_line()(a[n as int]));
        }
    }
    lemma_run_len_is(ended, in_line(), n);
    lemma_run_len_is(all, in_line(), n);
    assert(ended.take(n as int) =~= a.take(n as int));
    assert(all.take(n as int) =~= a.take(n as int));
    if n == a.len() {
        assert(a.take(n as int) =~= a);
        assert(ended.skip(n as int + 1) =~= Seq::empty());
        assert(all.skip(n as int + 1) =~= b);
        assert(lines(Seq::<char>::empty()) =~= Seq::empty());
        assert(lines(ended) =~= seq![without_return(a)]);
        assert(lines(all) =~= lines(ended) + lines(b));
    } else {
        assert(a.contains('\n')) by {
            assert(a[n as int] == '\n');
        }
        let rest = a.skip(n as int + 1);
        law_lines_are_parted_by_line_feeds(rest, b);
        assert(ended.skip(n as int + 1) =~= rest.push('\n'));
        assert(all.skip(n as int + 1) =~= rest.push('\n') + b);
        assert(lines(all) =~= lines(ended) + lines(b));
    }
    if a.len() > 0 && !a.contains('\n') {
        if n < a.len() {
            assert(a[n as int] == '\n');
        }
        assert(lines(a) =~= seq![a]);
    }
}

/// Joining one text gives the text, and joining two lists one behind the other gives what
/// joining each gives, with the separator between.
pub proof fn law_joining_puts_the_separator_between(
    a: Seq<Seq<char>>,
    b: Seq<Seq<char>>,
    separator: Seq<char>,
)
    ensures
        join_with(Seq::empty(), separator) == Seq::<char>::empty(),
        a.len() == 1 ==> join_with(a, separator) == a[0],
        a.len() > 0 && b.len() > 0 ==> join_with(a + b, separator) == join_with(a, separator)
            + separator + join_with(b, separator),
    decreases b.len(),
{
    if a.len() > 0 && b.len() > 0 {
        let all = a + b;
        let front = b.drop_last();
        assert(all.last() == b.last());
        assert(all.drop_last() =~= a + front);
        if b.len() == 1 {
            assert(all.drop_last() =~= a);
        } else {
            law_joining_puts_the_separator_between(a, front, separator);
            assert(join_with(all, separator) =~= join_with(a, separator) + separator + join_with(
                b,
                separator,
            ));
        }
    }
}

/// What follows a prefix is what has to be put behind it to get the text; only a text of
/// that form has something behind the prefix.
pub proof fn law_prefix_and_rest_make_the_text(s: Seq<char>, prefix: Seq<char>, rest: Seq<char>)
    ensures
        after_prefix(s, prefix) == Some(rest) <==> s == prefix + rest,
        begins_with(s, prefix) <==> after_prefix(s, prefix) is Some,
        begins_with(prefix + rest, prefix),
{
    assert((prefix + rest).take(prefix.len() as int) =~= prefix);
    assert((prefix + rest).skip(prefix.len() as int) =~= rest);
    if begins_with(s, prefix) {
        assert(s =~= prefix + s.skip(prefix.len() as int));
    }
}

/// A text stands in another exactly where that is made of something before it, the text
/// and something behind it.
pub proof fn law_text_contains_its_pieces(s: Seq<char>, a: Seq<char>, needle: Seq<char>, b: Seq<char>)
    ensures
        s == a + needle + b ==> contains_text(s, needle),
        contains_text(s, needle) ==> exists|at: int|
            0 <= at && at + needle.len() <= s.len() && s == #[trigger] s.take(at) + needle + s.skip(
                at + needle.len(),
            ),
{
    if s == a + needle + b {
        assert(s.subrange(a.len() as int, a.len() as int + needle.len()) =~= needle);
        assert(occurs_at(s, needle, a.len() as int));
    }
    if contains_text(s, needle) {
        let at = choose|at: int| occurs_at(s, needle, at);
        assert(s =~= s.take(at) + needle + s.skip(at + needle.len()));
    }
}

/// Lower case in ASCII changes the capital letters of ASCII alone, each to the small letter
/// of its place in the alphabet, and doing it twice changes nothing more.
pub proof fn law_ascii_lower_case_changes_capitals_alone(s: Seq<char>, i: int)
    requires
        0 <= i < s.len(),
    ensures
        ascii_lower_text(s).len() == s.len(),
        !('A' <= s[i] <= 'Z') ==> ascii_lower_text(s)[i] == s[i],
        'A' <= s[i] <= 'Z' ==> ascii_lower_text(s)[i] as int - 'a' as int == s[i] as int
            - 'A' as int,
        ascii_lower_text(ascii_lower_text(s))[i] == ascii_lower_text(s)[i],
{
}

/// White space is what Unicode calls so, wherever it stands in the table; a control
/// character is one below the space or among the thirty-three from delete on; words of ASCII
/// hold letters and digits alone.
pub proof fn law_kinds_of_characters(c: char)
    ensures
        is_white_space(c) <==> {
            let n = c as int;
            9 <= n <= 13 || n == 32 || n == 133 || n == 160 || n == 5760 || 8192 <= n <= 8202 || n
                == 8232 || n == 8233 || n == 8239 || n == 8287 || n == 12288
        },
        is_control_char(c) <==> 0 <= c as int <= 31 || 127 <= c as int <= 159,
        is_ascii_word(c) <==> 97 <= c as int <= 122 || 65 <= c as int <= 90 || 48 <= c as int <= 57,
{
}

/// A text is blank exactly where nothing is left of it once it is trimmed.
pub proof fn law_blank_texts_trim_to_nothing(s: Seq<char>, c: char)
    ensures
        is_blank_text(s) <==> trim(s).len() == 0,
        is_blank_text(Seq::empty()),
        is_blank_text(s.push(c)) <==> is_blank_text(s) && is_white_space(c),
{
    lemma_trim_empty_iff_blank(s);
    if is_blank_text(s.push(c)) {
        assert forall|i: int| 0 <= i < s.len() implies is_white_space(#[trigger] s[i]) by {
            assert(s.push(c)[i] == s[i]);
        }
        assert(s.push(c)[s.len() as int] == c);
    }
}

/// Of a text that starts with a run of one character, the whole run is taken away and
/// nothing else.
pub proof fn law_leading_run_is_taken_away(run: Seq<char>, rest: Seq<char>, c: char)
    requires
        forall|i: int| 0 <= i < run.len() ==> #[trigger] run[i] == c,
        rest.len() > 0 ==> rest[0] != c,
    ensures
        without_leading(run + rest, c) == rest,
{
    let s = run + rest;
    assert forall|i: int| 0 <= i < run.len() implies equals(c)(#[trigger] s[i]) by {
        assert(s[i] == run[i]);
    }
    lemma_run_len_is(s, equals(c), run.len());
    assert(s.skip(run.len() as int) =~= rest);
}

} // verus!

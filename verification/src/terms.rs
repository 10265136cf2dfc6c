//! The terms by which texts are compared: keywords, and pairs of neighbouring
//! Chinese characters.
use vstd::prelude::*;

use crate::outside::lowercase;
use crate::text::{
    ascii_lower_text, chars_of, is_ascii_alphanumeric, is_ascii_word, same_text, slice_text, texts,
    to_ascii_lowercase,
};

verus! {

/// The Chinese characters.
pub open spec fn is_chinese(c: char) -> bool {
    '\u{3400}' <= c <= '\u{4dbf}' || '\u{4e00}' <= c <= '\u{9fff}' || '\u{f900}' <= c <= '\u{faff}'
}

/// Whether a character is Chinese.
pub fn is_cjk(c: char) -> (chinese: bool)
    ensures
        chinese == is_chinese(c),
{
    ('\u{3400}' <= c && c <= '\u{4dbf}') || ('\u{4e00}' <= c && c <= '\u{9fff}') || ('\u{f900}' <= c
        && c <= '\u{faff}')
}

/// The characters that a keyword of a memory is made of.
pub open spec fn in_keyword(c: char) -> bool {
    is_ascii_word(c) || c == '_' || c == '-'
}

/// The characters that a word of a skill is made of.
pub open spec fn in_word(c: char) -> bool {
    is_ascii_word(c) || c == '_'
}

/// The predicate of [`in_keyword`].
pub open spec fn keyword_chars() -> spec_fn(char) -> bool {
    |c: char| in_keyword(c)
}

/// The predicate of [`in_word`].
pub open spec fn word_chars() -> spec_fn(char) -> bool {
    |c: char| in_word(c)
}

/// The predicate of [`is_chinese`].
pub open spec fn chinese_chars() -> spec_fn(char) -> bool {
    |c: char| is_chinese(c)
}

/// Whether all characters from `i` up to `j` satisfy `p`, and the ones beside
/// them do not.
pub open spec fn run_at(s: Seq<char>, p: spec_fn(char) -> bool, i: int, j: int) -> bool {
    &&& 0 <= i < j <= s.len()
    &&& forall|k: int| i <= k < j ==> p(#[trigger] s[k])
    &&& i > 0 ==> !p(s[i - 1])
    &&& j < s.len() ==> !p(s[j])
}

/// Whether a term of a memory stands from `i` up to `j`: a whole keyword, two
/// neighbouring Chinese characters, or a Chinese character with no Chinese
/// neighbour.
pub open spec fn term_at(s: Seq<char>, i: int, j: int) -> bool {
    ||| run_at(s, keyword_chars(), i, j)
    ||| 0 <= i && j == i + 2 && j <= s.len() && is_chinese(s[i]) && is_chinese(s[i + 1])
    ||| j == i + 1 && run_at(s, chinese_chars(), i, j)
}

/// The terms of a text that is in lower case already.
pub open spec fn lowered_terms(s: Seq<char>) -> Set<Seq<char>> {
    Set::new(|w: Seq<char>| exists|i: int, j: int| #[trigger] term_at(s, i, j) && w == s.subrange(i, j))
}

/// The terms of a memory.
pub open spec fn term_set(s: Seq<char>) -> Set<Seq<char>> {
    lowered_terms(lowercase(s))
}

/// The Chinese characters of a text, without what stands between them.
pub open spec fn chinese_of(s: Seq<char>) -> Seq<char>
    decreases s.len(),
{
    if s.len() == 0 {
        Seq::empty()
    } else if is_chinese(s.last()) {
        chinese_of(s.drop_last()).push(s.last())
    } else {
        chinese_of(s.drop_last())
    }
}

/// Whether a word of at least two characters stands from `i` up to `j`.
pub open spec fn word_at(s: Seq<char>, i: int, j: int) -> bool {
    run_at(s, word_chars(), i, j) && j - i >= 2
}

/// Whether the characters at `i` and behind it are a pair of a text.
pub open spec fn pair_at(s: Seq<char>, i: int) -> bool {
    0 <= i && i + 2 <= s.len()
}

/// The terms of a skill: its words of at least two characters in lower case, and
/// the pairs of Chinese characters that follow one another.
pub open spec fn skill_terms(s: Seq<char>) -> Set<Seq<char>> {
    Set::new(
        |w: Seq<char>|
            {
                ||| exists|i: int, j: int|
                    #[trigger] word_at(s, i, j) && w == ascii_lower_text(s.subrange(i, j))
                ||| exists|i: int|
                    #[trigger] pair_at(chinese_of(s), i) && w == chinese_of(s).subrange(i, i + 2)
            },
    )
}

/// A set of terms.
#[derive(Clone, Debug)]
pub struct TermSet {
    list: Vec<String>,
}

impl View for TermSet {
    type V = Set<Seq<char>>;

    closed spec fn view(&self) -> Set<Seq<char>> {
        texts(self.list@).to_set()
    }
}

impl TermSet {
    /// No term stands in the set twice.
    pub closed spec fn wf(&self) -> bool {
        texts(self.list@).no_duplicates()
    }

    /// The empty set.
    pub fn new() -> (out: TermSet)
        ensures
            out.wf(),
            out@ == Set::<Seq<char>>::empty(),
    {
        let out = TermSet { list: Vec::new() };
        assert(out@ =~= Set::empty());
        out
    }

    /// Whether a term is in the set.
    pub fn contains(&self, term: &str) -> (found: bool)
        ensures
            found == self@.contains(term@),
    {
        let mut at: usize = 0;
        while at < self.list.len()
            invariant
                at <= self.list.len(),
                forall|i: int| 0 <= i < at ==> #[trigger] texts(self.list@)[i] != term@,
            decreases self.list.len() - at,
        {
            if same_text(self.list[at].as_str(), term) {
                assert(texts(self.list@)[at as int] == term@);
                return true;
            }
            at += 1;
        }
        false
    }

    /// Puts a term into the set.
    pub fn insert(&mut self, term: String)
        requires
            old(self).wf(),
        ensures
            final(self).wf(),
            final(self)@ == old(self)@.insert(term@),
    {
        if self.contains(term.as_str()) {
            assert(self@.insert(term@) =~= self@);
        } else {
            let ghost before = texts(self.list@);
            let ghost set = self@;
            self.list.push(term);
            proof {
                let now = texts(self.list@);
                assert(now =~= before.push(term@));
                assert forall|w: Seq<char>| now.to_set().contains(w) <==> set.insert(term@).contains(
                    w,
                ) by {
                    if now.contains(w) {
                        let i = choose|i: int| 0 <= i < now.len() && now[i] == w;
                        if i < before.len() {
                            assert(before[i] == w);
                        }
                    }
                    if before.contains(w) {
                        let i = choose|i: int| 0 <= i < before.len() && before[i] == w;
                        assert(now[i] == w);
                    }
                    assert(now[before.len() as int] == term@);
                }
                assert(now.to_set() =~= set.insert(term@));
                assert forall|i: int, j: int|
                    0 <= i < now.len() && 0 <= j < now.len() && i != j implies now[i] != now[j] by {
                    if i == before.len() {
                        assert(before.contains(before[j]));
                    } else if j == before.len() {
                        assert(before.contains(before[i]));
                    }
                }
            }
        }
    }

    /// How many terms the set holds.
    pub fn len(&self) -> (count: usize)
        requires
            self.wf(),
        ensures
            self@.finite(),
            count == self@.len(),
    {
        proof {
            texts(self.list@).unique_seq_to_set();
            vstd::seq_lib::seq_to_set_is_finite(texts(self.list@));
        }
        self.list.len()
    }

    /// How many terms two sets have in common.
    pub fn overlap(&self, other: &TermSet) -> (count: usize)
        requires
            self.wf(),
        ensures
            count == self@.intersect(other@).len(),
            self@.intersect(other@).finite(),
    {
        let mut count: usize = 0;
        let mut at: usize = 0;
        let ghost all = texts(self.list@);
        assert(all.take(0).to_set().intersect(other@) =~= Set::empty());
        while at < self.list.len()
            invariant
                at <= self.list.len(),
                all == texts(self.list@),
                all.no_duplicates(),
                count <= at,
                count == all.take(at as int).to_set().intersect(other@).len(),
                all.take(at as int).to_set().intersect(other@).finite(),
            decreases self.list.len() - at,
        {
            let found = other.contains(self.list[at].as_str());
            proof {
                let before = all.take(at as int);
                let now = all.take(at + 1);
                let term = all[at as int];
                assert(now =~= before.push(term));
                assert(!before.contains(term)) by {
                    if before.contains(term) {
                        let i = choose|i: int| 0 <= i < before.len() && before[i] == term;
                        assert(all[i] == all[at as int]);
                    }
                }
                assert(now.to_set() =~= before.to_set().insert(term)) by {
                    assert forall|w: Seq<char>| now.contains(w) <==> before.contains(w) || w == term by {
                        if now.contains(w) {
                            let i = choose|i: int| 0 <= i < now.len() && now[i] == w;
                            if i < before.len() {
                                assert(before[i] == w);
                            }
                        }
                        if before.contains(w) {
                            let i = choose|i: int| 0 <= i < before.len() && before[i] == w;
                            assert(now[i] == w);
                        }
                        assert(now[at as int] == term);
                    }
                }
                if found {
                    assert(now.to_set().intersect(other@) =~= before.to_set().intersect(
                        other@,
                    ).insert(term));
                } else {
                    assert(now.to_set().intersect(other@) =~= before.to_set().intersect(other@));
                }
            }
            if found {
                count += 1;
            }
            at += 1;
        }
        assert(all.take(at as int) =~= all);
        count
    }
}

/// What the terms of a text are that end at or before a position.
spec fn terms_up_to(s: Seq<char>, n: int) -> Set<Seq<char>> {
    Set::new(
        |w: Seq<char>|
            exists|i: int, j: int| #[trigger] term_at(s, i, j) && j <= n && w == s.subrange(i, j),
    )
}

/// Whether no run of either kind goes on across a position.
spec fn between_runs(s: Seq<char>, n: int) -> bool {
    0 < n < s.len() ==> !(in_keyword(s[n - 1]) && in_keyword(s[n])) && !(is_chinese(s[n - 1])
        && is_chinese(s[n]))
}

proof fn lemma_pass_other(s: Seq<char>, n: int)
    requires
        0 <= n < s.len(),
        !in_keyword(s[n]),
        !is_chinese(s[n]),
    ensures
        terms_up_to(s, n + 1) == terms_up_to(s, n),
        between_runs(s, n + 1),
{
    assert forall|i: int, j: int| #[trigger] term_at(s, i, j) && j <= n + 1 implies j <= n by {
        if j == n + 1 {
            if run_at(s, keyword_chars(), i, j) {
                assert(keyword_chars()(s[n]));
            } else if j == i + 1 && run_at(s, chinese_chars(), i, j) {
                assert(chinese_chars()(s[n]));
            }
        }
    }
    assert(terms_up_to(s, n + 1) =~= terms_up_to(s, n));
}

proof fn lemma_pass_keyword(s: Seq<char>, n: int, end: int)
    requires
        0 <= n < end <= s.len(),
        between_runs(s, n),
        forall|k: int| n <= k < end ==> in_keyword(#[trigger] s[k]),
        end < s.len() ==> !in_keyword(s[end]),
    ensures
        terms_up_to(s, end) == terms_up_to(s, n).insert(s.subrange(n, end)),
        between_runs(s, end),
{
    assert(in_keyword(s[n]));
    assert(in_keyword(s[end - 1]));
    assert(run_at(s, keyword_chars(), n, end)) by {
        assert forall|k: int| n <= k < end implies keyword_chars()(#[trigger] s[k]) by {
            assert(in_keyword(s[k]));
        }
    }
    assert(term_at(s, n, end));
    assert forall|i: int, j: int| #[trigger] term_at(s, i, j) && n < j <= end implies i == n && j
        == end by {
        assert(in_keyword(s[j - 1]));
        assert(!is_chinese(s[j - 1]));
        if !run_at(s, keyword_chars(), i, j) {
            if j == i + 1 && run_at(s, chinese_chars(), i, j) {
                assert(chinese_chars()(s[i]));
            }
        }
        assert(run_at(s, keyword_chars(), i, j));
        if j < end {
            assert(in_keyword(s[j]));
        }
        if i < n {
            assert(keyword_chars()(s[n - 1]));
        } else if i > n {
            assert(in_keyword(s[i - 1]));
        }
    }
    assert forall|w: Seq<char>| terms_up_to(s, end).contains(w) <==> terms_up_to(s, n).insert(
        s.subrange(n, end),
    ).contains(w) by {
        if terms_up_to(s, end).contains(w) {
            let (i, j) = choose|i: int, j: int| #[trigger]
                term_at(s, i, j) && j <= end && w == s.subrange(i, j);
            if j <= n {
                assert(terms_up_to(s, n).contains(w));
            }
        }
        if terms_up_to(s, n).contains(w) {
            let (i, j) = choose|i: int, j: int| #[trigger]
                term_at(s, i, j) && j <= n && w == s.subrange(i, j);
            assert(term_at(s, i, j) && j <= end);
        }
    }
    assert(terms_up_to(s, end) =~= terms_up_to(s, n).insert(s.subrange(n, end)));
}

/// The pairs of a run of Chinese characters that end at or before a position.
spec fn pairs_up_to(s: Seq<char>, n: int, m: int) -> Set<Seq<char>> {
    Set::new(|w: Seq<char>| exists|i: int| n <= i && #[trigger] pair_at(s, i) && i + 2 <= m && w == s.subrange(i, i + 2))
}

proof fn lemma_pass_chinese(s: Seq<char>, n: int, end: int)
    requires
        0 <= n < end <= s.len(),
        between_runs(s, n),
        forall|k: int| n <= k < end ==> is_chinese(#[trigger] s[k]),
        end < s.len() ==> !is_chinese(s[end]),
    ensures
        end == n + 1 ==> terms_up_to(s, end) == terms_up_to(s, n).insert(s.subrange(n, end)),
        end > n + 1 ==> terms_up_to(s, end) == terms_up_to(s, n).union(pairs_up_to(s, n, end)),
        between_runs(s, end),
{
    assert(is_chinese(s[n]));
    assert(is_chinese(s[end - 1]));
    assert forall|i: int, j: int| #[trigger] term_at(s, i, j) && n < j <= end implies n <= i && (if end
        == n + 1 {
        i == n && j == end
    } else {
        j == i + 2
    }) by {
        assert(is_chinese(s[j - 1]));
        assert(!in_keyword(s[j - 1]));
        if run_at(s, keyword_chars(), i, j) {
            assert(keyword_chars()(s[j - 1]));
        }
        if j == i + 2 && i < n {
            assert(is_chinese(s[n - 1]));
        }
        if j == i + 1 && run_at(s, chinese_chars(), i, j) {
            if i > n {
                assert(is_chinese(s[i - 1]));
                assert(chinese_chars()(s[i - 1]));
            }
            if j < end {
                assert(is_chinese(s[j]));
                assert(chinese_chars()(s[j]));
            }
        }
    }
    if end == n + 1 {
        assert(run_at(s, chinese_chars(), n, end)) by {
            assert forall|k: int| n <= k < end implies chinese_chars()(#[trigger] s[k]) by {
                assert(is_chinese(s[k]));
            }
        }
        assert(term_at(s, n, end));
        assert forall|w: Seq<char>| terms_up_to(s, end).contains(w) <==> terms_up_to(s, n).insert(
            s.subrange(n, end),
        ).contains(w) by {
            if terms_up_to(s, end).contains(w) {
                let (i, j) = choose|i: int, j: int| #[trigger]
                    term_at(s, i, j) && j <= end && w == s.subrange(i, j);
                if j <= n {
                    assert(terms_up_to(s, n).contains(w));
                }
            }
            if terms_up_to(s, n).contains(w) {
                let (i, j) = choose|i: int, j: int| #[trigger]
                    term_at(s, i, j) && j <= n && w == s.subrange(i, j);
                assert(term_at(s, i, j) && j <= end);
            }
        }
        assert(terms_up_to(s, end) =~= terms_up_to(s, n).insert(s.subrange(n, end)));
    } else {
        let pairs = pairs_up_to(s, n, end);
        assert forall|w: Seq<char>| terms_up_to(s, end).contains(w) <==> terms_up_to(s, n).union(
            pairs,
        ).contains(w) by {
            if terms_up_to(s, end).contains(w) {
                let (i, j) = choose|i: int, j: int| #[trigger]
                    term_at(s, i, j) && j <= end && w == s.subrange(i, j);
                if j <= n {
                    assert(terms_up_to(s, n).contains(w));
                } else {
                    assert(pair_at(s, i));
                    assert(pairs.contains(w));
                }
            }
            if terms_up_to(s, n).contains(w) {
                let (i, j) = choose|i: int, j: int| #[trigger]
                    term_at(s, i, j) && j <= n && w == s.subrange(i, j);
                assert(term_at(s, i, j) && j <= end);
            }
            if pairs.contains(w) {
                let i = choose|i: int|
                    n <= i && #[trigger] pair_at(s, i) && i + 2 <= end && w == s.subrange(i, i + 2);
                assert(is_chinese(s[i]) && is_chinese(s[i + 1]));
                assert(term_at(s, i, i + 2));
            }
        }
        assert(terms_up_to(s, end) =~= terms_up_to(s, n).union(pairs));
    }
}

proof fn lemma_next_pair(s: Seq<char>, n: int, at: int)
    requires
        0 <= n <= at,
        at + 2 <= s.len(),
    ensures
        pairs_up_to(s, n, at + 2) == pairs_up_to(s, n, at + 1).insert(s.subrange(at, at + 2)),
{
    let next = pairs_up_to(s, n, at + 2);
    let before = pairs_up_to(s, n, at + 1);
    assert(pair_at(s, at));
    assert forall|w: Seq<char>| next.contains(w) <==> before.insert(s.subrange(at, at + 2)).contains(
        w,
    ) by {
        if next.contains(w) {
            let i = choose|i: int|
                n <= i && #[trigger] pair_at(s, i) && i + 2 <= at + 2 && w == s.subrange(i, i + 2);
            if i < at {
                assert(before.contains(w));
            }
        }
        if before.contains(w) {
            let i = choose|i: int|
                n <= i && #[trigger] pair_at(s, i) && i + 2 <= at + 1 && w == s.subrange(i, i + 2);
            assert(pair_at(s, i));
        }
    }
    assert(next =~= before.insert(s.subrange(at, at + 2)));
}

/// Puts the pairs of neighbouring characters from `start` up to `end` into a set.
fn insert_pairs(set: &mut TermSet, chars: &Vec<char>, start: usize, end: usize)
    requires
        old(set).wf(),
        start <= end <= chars.len(),
    ensures
        final(set).wf(),
        final(set)@ == old(set)@.union(pairs_up_to(chars@, start as int, end as int)),
{
    let ghost before = set@;
    if end - start < 2 {
        assert(pairs_up_to(chars@, start as int, end as int) =~= Set::empty());
        assert(before.union(Set::empty()) =~= before);
        return;
    }
    let mut at = start;
    assert(pairs_up_to(chars@, start as int, at + 1) =~= Set::empty());
    assert(before.union(Set::empty()) =~= before);
    while at + 1 < end
        invariant
            set.wf(),
            start <= at < end <= chars.len(),
            set@ == before.union(pairs_up_to(chars@, start as int, at + 1)),
        decreases end - at,
    {
        let pair = slice_text(chars, at, at + 2);
        set.insert(pair);
        proof {
            lemma_next_pair(chars@, start as int, at as int);
            assert(set@ =~= before.union(pairs_up_to(chars@, start as int, at + 2)));
        }
        at += 1;
    }
}

/// The terms of a text that is in lower case already.
pub fn terms_of_lowered(lower: &str) -> (set: TermSet)
    ensures
        set.wf(),
        set@ == lowered_terms(lower@),
{
    let chars = chars_of(lower);
    let ghost s = lower@;
    let mut set = TermSet::new();
    let mut at: usize = 0;
    assert(set@ =~= terms_up_to(s, 0)) by {
        assert forall|i: int, j: int| #[trigger] term_at(s, i, j) implies j > 0 by {}
    }
    while at < chars.len()
        invariant
            at <= chars.len(),
            chars@ == s,
            set.wf(),
            set@ == terms_up_to(s, at as int),
            between_runs(s, at as int),
        decreases chars.len() - at,
    {
        let start = at;
        if is_key(chars[at]) {
            while at < chars.len() && is_key(chars[at])
                invariant
                    start <= at <= chars.len(),
                    chars@ == s,
                    start < chars.len(),
                    in_keyword(s[start as int]),
                    forall|k: int| start <= k < at ==> in_keyword(#[trigger] s[k]),
                decreases chars.len() - at,
            {
                at += 1;
            }
            proof {
                lemma_pass_keyword(s, start as int, at as int);
            }
            set.insert(slice_text(&chars, start, at));
        } else if is_cjk(chars[at]) {
            while at < chars.len() && is_cjk(chars[at])
                invariant
                    start <= at <= chars.len(),
                    chars@ == s,
                    start < chars.len(),
                    is_chinese(s[start as int]),
                    forall|k: int| start <= k < at ==> is_chinese(#[trigger] s[k]),
                decreases chars.len() - at,
            {
                at += 1;
            }
            proof {
                lemma_pass_chinese(s, start as int, at as int);
            }
            if at - start == 1 {
                set.insert(slice_text(&chars, start, at));
            } else {
                insert_pairs(&mut set, &chars, start, at);
            }
        } else {
            proof {
                lemma_pass_other(s, at as int);
            }
            at += 1;
        }
    }
    assert(terms_up_to(s, at as int) =~= lowered_terms(s)) by {
        assert forall|i: int, j: int| #[trigger] term_at(s, i, j) implies j <= at by {}
    }
    set
}

fn is_key(c: char) -> (key: bool)
    ensures
        key == in_keyword(c),
{
    is_ascii_alphanumeric(c) || c == '_' || c == '-'
}

/// The terms of a memory.
pub fn terms(text: &str) -> (set: TermSet)
    ensures
        set.wf(),
        set@ == term_set(text@),
{
    let lower = text.to_lowercase();
    terms_of_lowered(lower.as_str())
}

/// The words of a text that end at or before a position.
spec fn words_up_to(s: Seq<char>, n: int) -> Set<Seq<char>> {
    Set::new(
        |w: Seq<char>|
            exists|i: int, j: int|
                #[trigger] word_at(s, i, j) && j <= n && w == ascii_lower_text(s.subrange(i, j)),
    )
}

proof fn lemma_pass_word(s: Seq<char>, n: int, end: int)
    requires
        0 <= n < end <= s.len(),
        n > 0 ==> !in_word(s[n - 1]),
        forall|k: int| n <= k < end ==> in_word(#[trigger] s[k]),
        end < s.len() ==> !in_word(s[end]),
    ensures
        end - n >= 2 ==> words_up_to(s, end) == words_up_to(s, n).insert(
            ascii_lower_text(s.subrange(n, end)),
        ),
        end - n < 2 ==> words_up_to(s, end) == words_up_to(s, n),
{
    assert forall|i: int, j: int| #[trigger] word_at(s, i, j) && n < j <= end implies i == n && j
        == end by {
        if j < end {
            assert(in_word(s[j]));
        }
        if i < n {
            assert(word_chars()(s[n - 1]));
        } else if i > n {
            assert(in_word(s[i - 1]));
        }
    }
    let now = words_up_to(s, end);
    let before = words_up_to(s, n);
    if end - n >= 2 {
        assert(run_at(s, word_chars(), n, end)) by {
            assert forall|k: int| n <= k < end implies word_chars()(#[trigger] s[k]) by {
                assert(in_word(s[k]));
            }
        }
        assert(word_at(s, n, end));
    }
    assert forall|w: Seq<char>| #[trigger] now.contains(w) implies before.contains(w) || (end - n >= 2 && w
        == ascii_lower_text(s.subrange(n, end))) by {
        let (i, j) = choose|i: int, j: int| #[trigger]
            word_at(s, i, j) && j <= end && w == ascii_lower_text(s.subrange(i, j));
        if j <= n {
            assert(before.contains(w));
        }
    }
    assert forall|w: Seq<char>| #[trigger] before.contains(w) implies now.contains(w) by {
        let (i, j) = choose|i: int, j: int| #[trigger]
            word_at(s, i, j) && j <= n && w == ascii_lower_text(s.subrange(i, j));
        assert(word_at(s, i, j) && j <= end);
    }
    if end - n >= 2 {
        assert(now =~= before.insert(ascii_lower_text(s.subrange(n, end))));
    } else {
        assert(now =~= before);
    }
}

proof fn lemma_pass_gap(s: Seq<char>, n: int)
    requires
        0 <= n < s.len(),
        !in_word(s[n]),
    ensures
        words_up_to(s, n + 1) == words_up_to(s, n),
{
    assert forall|i: int, j: int| #[trigger] word_at(s, i, j) && j <= n + 1 implies j <= n by {
        if j == n + 1 {
            assert(word_chars()(s[n]));
        }
    }
    assert(words_up_to(s, n + 1) =~= words_up_to(s, n));
}

fn is_word_char(c: char) -> (word: bool)
    ensures
        word == in_word(c),
{
    is_ascii_alphanumeric(c) || c == '_'
}

/// The terms of a skill.
pub fn terms_of_skill(text: &str) -> (set: TermSet)
    ensures
        set.wf(),
        set@ == skill_terms(text@),
{
    let chars = chars_of(text);
    let ghost s = text@;
    let mut set = TermSet::new();
    let mut at: usize = 0;
    assert(set@ =~= words_up_to(s, 0)) by {
        assert forall|i: int, j: int| #[trigger] word_at(s, i, j) implies j > 0 by {}
    }
    while at < chars.len()
        invariant
            at <= chars.len(),
            chars@ == s,
            set.wf(),
            set@ == words_up_to(s, at as int),
            0 < at < chars.len() && in_word(s[at as int]) ==> !in_word(s[at - 1]),
        decreases chars.len() - at,
    {
        let start = at;
        if is_word_char(chars[at]) {
            while at < chars.len() && is_word_char(chars[at])
                invariant
                    start <= at <= chars.len(),
                    chars@ == s,
                    start < chars.len(),
                    in_word(s[start as int]),
                    forall|k: int| start <= k < at ==> in_word(#[trigger] s[k]),
                decreases chars.len() - at,
            {
                at += 1;
            }
            proof {
                lemma_pass_word(s, start as int, at as int);
            }
            if at - start >= 2 {
                let word = slice_text(&chars, start, at);
                set.insert(to_ascii_lowercase(word.as_str()));
            }
        } else {
            proof {
                lemma_pass_gap(s, at as int);
            }
            at += 1;
        }
    }
    let mut chinese: Vec<char> = Vec::new();
    at = 0;
    while at < chars.len()
        invariant
            at <= chars.len(),
            chars@ == s,
            chinese@ == chinese_of(s.take(at as int)),
        decreases chars.len() - at,
    {
        assert(s.take(at + 1).drop_last() =~= s.take(at as int));
        if is_cjk(chars[at]) {
            chinese.push(chars[at]);
        }
        at += 1;
    }
    assert(s.take(at as int) =~= s);
    let ghost word_set = set@;
    let count = chinese.len();
    insert_pairs(&mut set, &chinese, 0, count);
    proof {
        let pairs = pairs_up_to(chinese@, 0, count as int);
        let all = skill_terms(s);
        assert forall|w: Seq<char>| word_set.union(pairs).contains(w) <==> all.contains(w) by {
            if word_set.contains(w) {
                let (i, j) = choose|i: int, j: int| #[trigger]
                    word_at(s, i, j) && j <= s.len() && w == ascii_lower_text(s.subrange(i, j));
                assert(word_at(s, i, j));
            }
            if pairs.contains(w) {
                let i = choose|i: int|
                    0 <= i && #[trigger] pair_at(chinese@, i) && i + 2 <= count && w
                        == chinese@.subrange(i, i + 2);
                assert(pair_at(chinese_of(s), i));
            }
            if all.contains(w) && !word_set.contains(w) {
                if exists|i: int, j: int|
                    #[trigger] word_at(s, i, j) && w == ascii_lower_text(s.subrange(i, j)) {
                    let (i, j) = choose|i: int, j: int| #[trigger]
                        word_at(s, i, j) && w == ascii_lower_text(s.subrange(i, j));
                    assert(word_at(s, i, j) && j <= s.len());
                    assert(word_set.contains(w));
                }
                let i = choose|i: int|
                    #[trigger] pair_at(chinese_of(s), i) && w == chinese_of(s).subrange(i, i + 2);
                assert(pair_at(chinese@, i));
            }
        }
        assert(set@ =~= all);
    }
    set
}

/// The pieces of a text that start before a position, in lower case.
spec fn pieces(s: Seq<char>, n: int) -> Set<Seq<char>>
    decreases n,
{
    if n <= 0 {
        Set::empty()
    } else {
        pieces(s, n - 1).union(
            vstd::set_lib::set_int_range(0, s.len() as int + 1).map(
                |j: int| ascii_lower_text(s.subrange(n - 1, j)),
            ),
        )
    }
}

proof fn lemma_pieces_finite(s: Seq<char>, n: int)
    ensures
        pieces(s, n).finite(),
    decreases n,
{
    if n > 0 {
        lemma_pieces_finite(s, n - 1);
        vstd::set_lib::lemma_int_range(0, s.len() as int + 1);
        vstd::set_lib::set_int_range(0, s.len() as int + 1).lemma_map_finite(
            |j: int| ascii_lower_text(s.subrange(n - 1, j)),
        );
    }
}

proof fn lemma_in_pieces(s: Seq<char>, i: int, j: int, n: int)
    requires
        0 <= i < n,
        0 <= j <= s.len(),
    ensures
        pieces(s, n).contains(ascii_lower_text(s.subrange(i, j))),
    decreases n,
{
    if i == n - 1 {
        let f = |j: int| ascii_lower_text(s.subrange(n - 1, j));
        assert(vstd::set_lib::set_int_range(0, s.len() as int + 1).contains(j));
        assert(vstd::set_lib::set_int_range(0, s.len() as int + 1).map(f).contains(f(j)));
    } else {
        lemma_in_pieces(s, i, j, n - 1);
    }
}

/// A text has finitely many terms.
pub proof fn lemma_skill_terms_finite(s: Seq<char>)
    ensures
        skill_terms(s).finite(),
{
    let c = chinese_of(s);
    lemma_pieces_finite(s, s.len() as int);
    vstd::set_lib::lemma_int_range(0, c.len() as int);
    let f = |i: int| c.subrange(i, i + 2);
    vstd::set_lib::set_int_range(0, c.len() as int).lemma_map_finite(f);
    let pairs = vstd::set_lib::set_int_range(0, c.len() as int).map(f);
    let all = pieces(s, s.len() as int).union(pairs);
    assert forall|w: Seq<char>| #[trigger] skill_terms(s).contains(w) implies all.contains(w) by {
        if exists|i: int, j: int|
            #[trigger] word_at(s, i, j) && w == ascii_lower_text(s.subrange(i, j)) {
            let (i, j) = choose|i: int, j: int| #[trigger]
                word_at(s, i, j) && w == ascii_lower_text(s.subrange(i, j));
            lemma_in_pieces(s, i, j, s.len() as int);
        } else {
            let i = choose|i: int| #[trigger] pair_at(c, i) && w == c.subrange(i, i + 2);
            assert(vstd::set_lib::set_int_range(0, c.len() as int).contains(i));
            assert(pairs.contains(f(i)));
        }
    }
    vstd::set_lib::lemma_len_subset(skill_terms(s), all);
}

/// The pieces of a text that start before a position.
spec fn cuts(s: Seq<char>, n: int) -> Set<Seq<char>>
    decreases n,
{
    if n <= 0 {
        Set::empty()
    } else {
        cuts(s, n - 1).union(
            vstd::set_lib::set_int_range(0, s.len() as int + 1).map(
                |j: int| s.subrange(n - 1, j),
            ),
        )
    }
}

proof fn lemma_cuts(s: Seq<char>, i: int, j: int, n: int)
    requires
        0 <= j <= s.len(),
    ensures
        cuts(s, n).finite(),
        0 <= i < n ==> cuts(s, n).contains(s.subrange(i, j)),
    decreases n,
{
    if n > 0 {
        lemma_cuts(s, i, j, n - 1);
        let range = vstd::set_lib::set_int_range(0, s.len() as int + 1);
        let f = |j: int| s.subrange(n - 1, j);
        vstd::set_lib::lemma_int_range(0, s.len() as int + 1);
        range.lemma_map_finite(f);
        assert(range.contains(j));
        assert(range.map(f).contains(f(j)));
    }
}

/// A text has finitely many terms.
pub proof fn lemma_term_set_finite(s: Seq<char>)
    ensures
        term_set(s).finite(),
{
    let low = lowercase(s);
    lemma_cuts(low, 0, 0, low.len() as int);
    let all = cuts(low, low.len() as int);
    assert forall|w: Seq<char>| #[trigger] term_set(s).contains(w) implies all.contains(w) by {
        let (i, j) = choose|i: int, j: int| #[trigger]
            term_at(low, i, j) && w == low.subrange(i, j);
        lemma_cuts(low, i, j, low.len() as int);
    }
    vstd::set_lib::lemma_len_subset(term_set(s), all);
}

/// In a text in lower case every whole word of ASCII letters, digits, underscores and
/// hyphens is a term, and so are every two neighbouring Chinese characters, and a Chinese
/// character that stands alone.
pub proof fn law_words_and_neighbouring_characters_are_terms(s: Seq<char>, i: int, j: int)
    requires
        0 <= i < j <= s.len(),
    ensures
        (forall|k: int|
            i <= k < j ==> {
                let c = #[trigger] s[k];
                'a' <= c <= 'z' || 'A' <= c <= 'Z' || '0' <= c <= '9' || c == '_' || c == '-'
            }) && (i > 0 ==> !('a' <= s[i - 1] <= 'z' || 'A' <= s[i - 1] <= 'Z' || '0' <= s[i - 1] <= '9'
            || s[i - 1] == '_' || s[i - 1] == '-')) && (j < s.len() ==> !('a' <= s[j] <= 'z' || 'A' <= s[j] <= 'Z' || '0' <= s[j] <= '9'
            || s[j] == '_' || s[j] == '-')) ==> lowered_terms(s).contains(
            s.subrange(i, j),
        ),
        j == i + 2 && is_chinese(s[i]) && is_chinese(s[i + 1]) ==> lowered_terms(s).contains(
            s.subrange(i, j),
        ),
        j == i + 1 && is_chinese(s[i]) && (i > 0 ==> !is_chinese(s[i - 1])) && (j < s.len()
            ==> !is_chinese(s[j])) ==> lowered_terms(s).contains(s.subrange(i, j)),
        is_chinese(s[i]) <==> ('\u{3400}' <= s[i] <= '\u{4dbf}' || '\u{4e00}' <= s[i] <= '\u{9fff}'
            || '\u{f900}' <= s[i] <= '\u{faff}'),
{
    if (forall|k: int|
        i <= k < j ==> {
            let c = #[trigger] s[k];
            'a' <= c <= 'z' || 'A' <= c <= 'Z' || '0' <= c <= '9' || c == '_' || c == '-'
        }) && (i > 0 ==> !('a' <= s[i - 1] <= 'z' || 'A' <= s[i - 1] <= 'Z' || '0' <= s[i - 1] <= '9'
            || s[i - 1] == '_' || s[i - 1] == '-')) && (j < s.len() ==> !('a' <= s[j] <= 'z' || 'A' <= s[j] <= 'Z' || '0' <= s[j] <= '9'
            || s[j] == '_' || s[j] == '-')) {
        assert forall|k: int| i <= k < j implies keyword_chars()(#[trigger] s[k]) by {}
        assert(run_at(s, keyword_chars(), i, j));
        assert(term_at(s, i, j));
    }
    if j == i + 2 && is_chinese(s[i]) && is_chinese(s[i + 1]) {
        assert(term_at(s, i, j));
    }
    if j == i + 1 && is_chinese(s[i]) && (i > 0 ==> !is_chinese(s[i - 1])) && (j < s.len()
        ==> !is_chinese(s[j])) {
        assert forall|k: int| i <= k < j implies chinese_chars()(#[trigger] s[k]) by {}
        assert(run_at(s, chinese_chars(), i, j));
        assert(term_at(s, i, j));
    }
}

/// Nothing else is a term: each is a word, or one or two Chinese characters, and stands in
/// the text.
pub proof fn law_terms_are_words_or_chinese_characters(s: Seq<char>, term: Seq<char>)
    requires
        lowered_terms(s).contains(term),
    ensures
        term.len() > 0,
        crate::text::contains_text(s, term),
        (forall|k: int|
            0 <= k < term.len() ==> {
                let c = #[trigger] term[k];
                'a' <= c <= 'z' || 'A' <= c <= 'Z' || '0' <= c <= '9' || c == '_' || c == '-'
            }) || (term.len() <= 2 && forall|k: int|
            0 <= k < term.len() ==> is_chinese(#[trigger] term[k])),
{
    let (i, j) = choose|i: int, j: int| #[trigger] term_at(s, i, j) && term == s.subrange(i, j);
    assert(crate::text::occurs_at(s, term, i));
    if run_at(s, keyword_chars(), i, j) {
        assert forall|k: int| 0 <= k < term.len() implies {
            let c = #[trigger] term[k];
            'a' <= c <= 'z' || 'A' <= c <= 'Z' || '0' <= c <= '9' || c == '_' || c == '-'
        } by {
            assert(keyword_chars()(s[i + k]));
        }
    } else if run_at(s, chinese_chars(), i, j) && j == i + 1 {
        assert(chinese_chars()(s[i]));
        assert(term[0] == s[i]);
    } else {
        assert(term[0] == s[i] && term[1] == s[i + 1]);
    }
}

/// The terms of a skill are its words of at least two ASCII letters, digits and underscores
/// in lower case, and what stands next to one another among its Chinese characters, whatever
/// stands between.
pub proof fn law_skill_terms_are_words_and_chinese_pairs(s: Seq<char>, i: int, j: int)
    ensures
        0 <= i && i + 2 <= j <= s.len() && (forall|k: int|
            i <= k < j ==> {
                let c = #[trigger] s[k];
                'a' <= c <= 'z' || 'A' <= c <= 'Z' || '0' <= c <= '9' || c == '_'
            }) && (i > 0 ==> !('a' <= s[i - 1] <= 'z' || 'A' <= s[i - 1] <= 'Z' || '0' <= s[i - 1] <= '9'
            || s[i - 1] == '_')) && (j < s.len() ==> !('a' <= s[j] <= 'z' || 'A' <= s[j] <= 'Z' || '0' <= s[j] <= '9'
            || s[j] == '_')) ==> skill_terms(s).contains(
            ascii_lower_text(s.subrange(i, j)),
        ),
        chinese_of(s) == s.filter(|c: char| is_chinese(c)),
        0 <= i && i + 2 <= s.filter(|c: char| is_chinese(c)).len() ==> skill_terms(s).contains(
            s.filter(|c: char| is_chinese(c)).subrange(i, i + 2),
        ),
{
    lemma_chinese_is_filter(s);
    if 0 <= i && i + 2 <= j <= s.len() && (forall|k: int|
        i <= k < j ==> {
            let c = #[trigger] s[k];
            'a' <= c <= 'z' || 'A' <= c <= 'Z' || '0' <= c <= '9' || c == '_'
        }) && (i > 0 ==> !('a' <= s[i - 1] <= 'z' || 'A' <= s[i - 1] <= 'Z' || '0' <= s[i - 1] <= '9'
            || s[i - 1] == '_')) && (j < s.len() ==> !('a' <= s[j] <= 'z' || 'A' <= s[j] <= 'Z' || '0' <= s[j] <= '9'
            || s[j] == '_')) {
        assert forall|k: int| i <= k < j implies word_chars()(#[trigger] s[k]) by {}
        assert(word_at(s, i, j));
    }
    if 0 <= i && i + 2 <= chinese_of(s).len() {
        assert(pair_at(chinese_of(s), i));
    }
}

proof fn lemma_chinese_is_filter(s: Seq<char>)
    ensures
        chinese_of(s) == s.filter(|c: char| is_chinese(c)),
    decreases s.len(),
{
    reveal(Seq::filter);
    if s.len() > 0 {
        lemma_chinese_is_filter(s.drop_last());
    }
}

/// Nothing else is a term of a skill.
pub proof fn law_skill_terms_are_nothing_else(s: Seq<char>, term: Seq<char>)
    requires
        skill_terms(s).contains(term),
    ensures
        term.len() >= 2,
        (forall|k: int|
            0 <= k < term.len() ==> {
                let c = #[trigger] term[k];
                'a' <= c <= 'z' || '0' <= c <= '9' || c == '_'
            }) || (term.len() == 2 && is_chinese(term[0]) && is_chinese(term[1])),
{
    if exists|i: int, j: int|
        #[trigger] word_at(s, i, j) && term == ascii_lower_text(s.subrange(i, j)) {
        let (i, j) = choose|i: int, j: int| #[trigger]
            word_at(s, i, j) && term == ascii_lower_text(s.subrange(i, j));
        assert forall|k: int| 0 <= k < term.len() implies {
            let c = #[trigger] term[k];
            'a' <= c <= 'z' || '0' <= c <= '9' || c == '_'
        } by {
            assert(word_chars()(s[i + k]));
        }
    } else {
        let c = chinese_of(s);
        let i = choose|i: int| #[trigger] pair_at(c, i) && term == c.subrange(i, i + 2);
        lemma_all_chinese(s, i);
        lemma_all_chinese(s, i + 1);
        assert(term[0] == c[i] && term[1] == c[i + 1]);
    }
}

proof fn lemma_all_chinese(s: Seq<char>, i: int)
    requires
        0 <= i < chinese_of(s).len(),
    ensures
        is_chinese(chinese_of(s)[i]),
    decreases s.len(),
{
    if i < chinese_of(s.drop_last()).len() {
        lemma_all_chinese(s.drop_last(), i);
    }
}

/// The terms of a text do not depend on the case of its letters.
pub proof fn law_terms_do_not_depend_on_case(a: Seq<char>, b: Seq<char>, i: int, j: int)
    ensures
        lowercase(a) == lowercase(b) ==> term_set(a) == term_set(b),
        term_at(lowercase(a), i, j) ==> term_set(a).contains(lowercase(a).subrange(i, j)),
{
}

/// A term that is a word stands whole in the text: no letter, digit, underscore or hyphen
/// stands beside it. A term of one Chinese character stands there without another beside it.
pub proof fn law_terms_are_whole_words(s: Seq<char>, term: Seq<char>)
    requires
        lowered_terms(s).contains(term),
    ensures
        exists|i: int|
            {
                let j = i + term.len();
                &&& 0 <= i && j <= s.len()
                &&& #[trigger] s.subrange(i, i + term.len()) == term
                &&& in_keyword(term[0]) ==> (i > 0 ==> !('a' <= s[i - 1] <= 'z' || 'A' <= s[i - 1]
                    <= 'Z' || '0' <= s[i - 1] <= '9' || s[i - 1] == '_' || s[i - 1] == '-')) && (j
                    < s.len() ==> !('a' <= s[j] <= 'z' || 'A' <= s[j] <= 'Z' || '0' <= s[j] <= '9'
                    || s[j] == '_' || s[j] == '-'))
                &&& !in_keyword(term[0]) && term.len() == 1 ==> (i > 0 ==> !is_chinese(s[i - 1]))
                    && (j < s.len() ==> !is_chinese(s[j]))
            },
{
    let (i, j) = choose|i: int, j: int| #[trigger] term_at(s, i, j) && term == s.subrange(i, j);
    assert(term.len() == j - i);
    assert(term[0] == s[i]);
    assert(s.subrange(i, i + term.len()) == term);
    if run_at(s, keyword_chars(), i, j) {
        assert(keyword_chars()(s[i]));
        if i > 0 {
            assert(!keyword_chars()(s[i - 1]));
        }
        if j < s.len() {
            assert(!keyword_chars()(s[j]));
        }
    } else if j == i + 1 && run_at(s, chinese_chars(), i, j) {
        assert(chinese_chars()(s[i]));
        if i > 0 {
            assert(!chinese_chars()(s[i - 1]));
        }
        if j < s.len() {
            assert(!chinese_chars()(s[j]));
        }
    }
}

/// A word among the terms of a skill stands whole in the text, in any case of letters.
pub proof fn law_skill_words_are_whole(s: Seq<char>, term: Seq<char>)
    requires
        skill_terms(s).contains(term),
        !is_chinese(term[0]),
    ensures
        exists|i: int|
            {
                let j = i + term.len();
                &&& 0 <= i && j <= s.len()
                &&& ascii_lower_text(#[trigger] s.subrange(i, i + term.len())) == term
                &&& i > 0 ==> !('a' <= s[i - 1] <= 'z' || 'A' <= s[i - 1] <= 'Z' || '0' <= s[i - 1]
                    <= '9' || s[i - 1] == '_')
                &&& j < s.len() ==> !('a' <= s[j] <= 'z' || 'A' <= s[j] <= 'Z' || '0' <= s[j]
                    <= '9' || s[j] == '_')
            },
{
    if exists|i: int, j: int|
        #[trigger] word_at(s, i, j) && term == ascii_lower_text(s.subrange(i, j)) {
        let (i, j) = choose|i: int, j: int|
            #[trigger] word_at(s, i, j) && term == ascii_lower_text(s.subrange(i, j));
        assert(term.len() == j - i);
        assert(ascii_lower_text(s.subrange(i, i + term.len())) == term);
        if i > 0 {
            assert(!word_chars()(s[i - 1]));
        }
        if j < s.len() {
            assert(!word_chars()(s[j]));
        }
    } else {
        let i = choose|i: int|
            #[trigger] pair_at(chinese_of(s), i) && term == chinese_of(s).subrange(i, i + 2);
        assert(term[0] == chinese_of(s)[i]);
        lemma_all_chinese(s, i);
    }
}

} // verus!

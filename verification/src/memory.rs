//! Facts that are remembered for long, and how they are found again.
use vstd::prelude::*;

use crate::json::{no_entries, Entries, JsonView};
use crate::number::{decimal, decimal_text};
use crate::order::{
    lemma_compared, lemma_ranked_in_order, lemma_ranked_permutes, ranked, stable_sort, Ranked,
    Sortable, TotallyRanked,
};
use crate::outside::lowercase;
use crate::path::{join_path, joined};
use crate::provider::{ToolSpec, ToolSpecView};
use crate::records::{first_broken, records_before, restore};
use crate::terms::{lemma_term_set_finite, term_set, terms, TermSet};
use crate::text::{contains, contains_text, opt_str, same_text, texts};
use crate::tools::exec::{
    described_kind, described_kind_value, name_list, object_schema, object_schema_entries,
};
use crate::tools::Tool;

verus! {

/// A fact that is remembered.
#[derive(Clone, Debug, PartialEq, Eq)]
pub struct MemoryEntry {
    pub id: String,
    pub content: String,
    pub created_at: u64,
    /// When the fact is forgotten; never where there is no time.
    pub expires_at: Option<u64>,
    pub manual: bool,
}

/// Why the memory could not be read.
#[derive(Clone, Debug, PartialEq, Eq)]
pub enum MemoryError {
    /// A line that holds no fact, and what is wrong with it.
    CorruptLine { line: usize, source: String },
    /// The clock stands before the epoch.
    InvalidSystemTime,
}

impl MemoryError {
    /// The error in words.
    pub fn message(&self) -> (text: String)
        ensures
            text@ == (match *self {
                MemoryError::CorruptLine { line, source } => "memory.jsonl 第 "@ + decimal(
                    line as nat,
                ) + " 行损坏: "@ + source@,
                MemoryError::InvalidSystemTime => "系统时间早于 UNIX_EPOCH"@,
            }),
    {
        match self {
            MemoryError::CorruptLine { line, source } => {
                let mut text = "memory.jsonl 第 ".to_owned();
                text.append(decimal_text(*line as u128).as_str());
                text.append(" 行损坏: ");
                text.append(source.as_str());
                text
            },
            MemoryError::InvalidSystemTime => "系统时间早于 UNIX_EPOCH".to_owned(),
        }
    }
}

/// When a fact is forgotten that is kept for some days from now, as far as the
/// clock can tell.
pub open spec fn expiry(now: u64, days: u64) -> u64 {
    if now + days * 86400 <= u64::MAX {
        (now + days * 86400) as u64
    } else {
        u64::MAX
    }
}

/// Whether a fact is still remembered at a time.
pub open spec fn remembered(entry: MemoryEntry, now: u64) -> bool {
    match entry.expires_at {
        Some(expires_at) => expires_at > now,
        None => true,
    }
}

/// Whether a fact and a query speak of one another: either stands in the other.
pub open spec fn speaks_of(content: Seq<char>, query: Seq<char>) -> bool {
    lowercase(query).len() > 0 && (contains_text(lowercase(content), lowercase(query))
        || contains_text(lowercase(query), lowercase(content)))
}

/// How well a fact answers a query: by the terms they share, and far better where
/// one stands in the other.
pub open spec fn score(content: Seq<char>, query: Seq<char>) -> usize {
    let shared = term_set(content).intersect(term_set(query)).len() + (if speaks_of(content, query) {
        100nat
    } else {
        0nat
    });
    if shared <= usize::MAX {
        shared as usize
    } else {
        usize::MAX
    }
}

/// A fact with how well it answers a query.
#[derive(Clone, Debug, PartialEq, Eq)]
pub struct ScoredEntry {
    pub score: usize,
    pub entry: MemoryEntry,
}

/// The better answer first, then what was noted by hand, then what is newer.
impl Ranked for ScoredEntry {
    open spec fn before(&self, other: &ScoredEntry) -> bool {
        if self.score != other.score {
            self.score > other.score
        } else if self.entry.manual != other.entry.manual {
            self.entry.manual
        } else {
            self.entry.created_at > other.entry.created_at
        }
    }
}

impl Sortable for ScoredEntry {
    fn is_before(&self, other: &ScoredEntry) -> (before: bool) {
        proof {
            lemma_compared(*self, *other);
        }
        if self.score != other.score {
            self.score > other.score
        } else if self.entry.manual != other.entry.manual {
            self.entry.manual
        } else {
            self.entry.created_at > other.entry.created_at
        }
    }
}

impl TotallyRanked for ScoredEntry {
    proof fn ranking_laws(a: &ScoredEntry, b: &ScoredEntry, c: &ScoredEntry) {
    }
}

/// Whether a fact is an answer to a query: it is still remembered and shares
/// something with the query.
pub open spec fn answers(entry: MemoryEntry, query: Seq<char>, now: u64) -> bool {
    remembered(entry, now) && score(entry.content@, query) > 0
}

/// The answers to a query among some facts, with their scores.
pub open spec fn candidates(entries: Seq<MemoryEntry>, query: Seq<char>, now: u64) -> Seq<
    ScoredEntry,
>
    decreases entries.len(),
{
    if entries.len() == 0 {
        Seq::empty()
    } else if answers(entries.last(), query, now) {
        candidates(entries.drop_last(), query, now).push(
            ScoredEntry {
                score: score(entries.last().content@, query),
                entry: entries.last(),
            },
        )
    } else {
        candidates(entries.drop_last(), query, now)
    }
}

/// How many facts a query brings at most: what was asked for, but at least one and
/// at most twenty.
pub open spec fn recall_limit(limit: nat) -> nat {
    if limit < 1 {
        1
    } else if limit > 20 {
        20
    } else {
        limit
    }
}

/// The first `n` of some answers.
pub open spec fn best(found: Seq<ScoredEntry>, n: nat) -> Seq<MemoryEntry> {
    let count = if found.len() < n {
        found.len()
    } else {
        n
    };
    Seq::new(count, |i: int| found[i].entry)
}

/// What a query brings.
pub open spec fn recalled(entries: Seq<MemoryEntry>, query: Seq<char>, limit: nat, now: u64) -> Seq<
    MemoryEntry,
> {
    best(ranked(candidates(entries, query, now)), recall_limit(limit))
}

/// How many facts are brought where nothing is said of it.
pub fn default_recall_limit() -> (limit: usize)
    ensures
        limit == 5,
{
    5
}

/// The store of the facts.
#[derive(Clone, Debug, PartialEq, Eq)]
pub struct MemoryStore {
    path: String,
}

impl View for MemoryStore {
    type V = Seq<char>;

    closed spec fn view(&self) -> Seq<char> {
        self.path@
    }
}

impl MemoryStore {
    /// The store that a setting asks for, below the workspace where the path is
    /// not absolute.
    pub fn from_env(workspace: &str, configured: Option<&str>) -> (store: MemoryStore)
        ensures
            store@ == (match opt_str(configured) {
                Some(path) => joined(workspace@, path),
                None => joined(workspace@, ".my-agent/memory.jsonl"@),
            }),
    {
        match configured {
            Some(path) => MemoryStore { path: join_path(workspace, path) },
            None => MemoryStore { path: join_path(workspace, ".my-agent/memory.jsonl") },
        }
    }

    /// The store in a file.
    pub fn new(path: &str) -> (store: MemoryStore)
        ensures
            store@ == path@,
    {
        MemoryStore { path: path.to_owned() }
    }

    /// The file of the store.
    pub fn path(&self) -> (path: &str)
        ensures
            path@ == self@,
    {
        self.path.as_str()
    }

    /// A new fact, noted by hand now, the next in the order of notes.
    pub fn save(content: String, ttl_days: Option<u64>, now: u64, sequence: u64) -> (entry:
        MemoryEntry)
        ensures
            entry.id@ == "mem-"@ + decimal(now as nat) + "-"@ + decimal(sequence as nat),
            entry.content == content,
            entry.created_at == now,
            entry.expires_at == (match ttl_days {
                Some(days) => Some(expiry(now, days)),
                None => None,
            }),
            entry.manual,
    {
        let expires_at = match ttl_days {
            Some(days) => {
                let seconds: u128 = days as u128 * 86400;
                let end: u128 = now as u128 + seconds;
                if end <= u64::MAX as u128 {
                    Some(end as u64)
                } else {
                    Some(u64::MAX)
                }
            },
            None => None,
        };
        let mut id = "mem-".to_owned();
        id.append(decimal_text(now as u128).as_str());
        id.append("-");
        id.append(decimal_text(sequence as u128).as_str());
        MemoryEntry { id, content, created_at: now, expires_at, manual: true }
    }

    /// The facts of a file, one for each filled line.
    pub fn load(list: &Vec<String>, parsed: Vec<Result<MemoryEntry, String>>) -> (out: Result<
        Vec<MemoryEntry>,
        MemoryError,
    >)
        requires
            list@.len() == parsed@.len(),
        ensures
            ({
                let broken = first_broken(texts(list@), parsed@, 0);
                if broken == list@.len() {
                    out matches Ok(entries) && entries@ == records_before(
                        texts(list@),
                        parsed@,
                        broken,
                    )
                } else {
                    out matches Err(MemoryError::CorruptLine { line, source }) && line == broken + 1
                        && parsed@[broken] == Err::<MemoryEntry, String>(source)
                }
            }),
    {
        match restore(list, parsed, false) {
            Ok(entries) => Ok(entries),
            Err((line, source)) => Err(MemoryError::CorruptLine { line, source }),
        }
    }

    /// The facts that answer a query best.
    pub fn recall(entries: Vec<MemoryEntry>, query: &str, limit: usize, now: u64) -> (out: Vec<
        MemoryEntry,
    >)
        ensures
            out@ == recalled(entries@, query@, limit as nat, now),
    {
        let query_terms = terms(query);
        let query_lower = query.to_lowercase();
        let mut found: Vec<ScoredEntry> = Vec::new();
        let ghost all = entries@;
        assert(found@ =~= candidates(all.take(0), query@, now));
        for entry in iter: entries
            invariant
                iter.seq() == all,
                query_terms@ == term_set(query@),
                query_lower@ == lowercase(query@),
                found@ == candidates(all.take(iter.index() as int), query@, now),
        {
            assert(all.take(iter.index() + 1).drop_last() =~= all.take(iter.index() as int));
            assert(all.take(iter.index() + 1).last() == entry);
            let live = match entry.expires_at {
                Some(expires_at) => expires_at > now,
                None => true,
            };
            if live {
                let value = rate(entry.content.as_str(), query, &query_terms, query_lower.as_str());
                if value > 0 {
                    found.push(ScoredEntry { score: value, entry });
                }
            }
        }
        assert(all.take(all.len() as int) =~= all);
        let sorted = stable_sort(found);
        let wanted = if limit < 1 {
            1
        } else if limit > 20 {
            20
        } else {
            limit
        };
        let mut out: Vec<MemoryEntry> = Vec::new();
        let ghost order = sorted@;
        for scored in iter: sorted
            invariant
                iter.seq() == order,
                wanted == recall_limit(limit as nat),
                out@.len() == (if iter.index() < wanted {
                    iter.index() as nat
                } else {
                    wanted as nat
                }),
                forall|i: int| 0 <= i < out@.len() ==> #[trigger] out@[i] == order[i].entry,
        {
            if out.len() < wanted {
                out.push(scored.entry);
            }
        }
        assert(out@ =~= best(order, wanted as nat));
        out
    }
}

fn rate(content: &str, query: &str, query_terms: &TermSet, query_lower: &str) -> (value: usize)
    requires
        query_terms@ == term_set(query@),
        query_lower@ == lowercase(query@),
    ensures
        value == score(content@, query@),
{
    let content_lower = content.to_lowercase();
    let shared = terms(content).overlap(query_terms);
    proof {
        reveal_strlit("");
        assert(query_lower@.len() == 0 ==> query_lower@ =~= ""@);
    }
    let bonus: usize = if !same_text(query_lower, "") && (contains(
        content_lower.as_str(),
        query_lower,
    ) || contains(query_lower, content_lower.as_str())) {
        100
    } else {
        0
    };
    shared.saturating_add(bonus)
}

/// Everything that a query brings is an answer to it that is still remembered, is
/// among the facts, and there are no more than twenty.
pub proof fn law_recall_brings_live_answers(
    entries: Seq<MemoryEntry>,
    query: Seq<char>,
    limit: nat,
    now: u64,
    i: int,
)
    requires
        0 <= i < recalled(entries, query, limit, now).len(),
    ensures
        recalled(entries, query, limit, now).len() <= 20,
        answers(recalled(entries, query, limit, now)[i], query, now),
        entries.contains(recalled(entries, query, limit, now)[i]),
{
    let found = candidates(entries, query, now);
    let order = ranked(found);
    lemma_ranked_permutes(found);
    let scored = order[i];
    assert(order.contains(scored));
    assert(found.contains(scored)) by {
        broadcast use vstd::seq_lib::group_to_multiset_ensures;

        assert(order.to_multiset().count(scored) > 0);
        assert(found.to_multiset().count(scored) > 0);
    }
    let k = choose|k: int| 0 <= k < found.len() && found[k] == scored;
    lemma_candidates(entries, query, now, k);
}

proof fn lemma_candidates(entries: Seq<MemoryEntry>, query: Seq<char>, now: u64, k: int)
    requires
        0 <= k < candidates(entries, query, now).len(),
    ensures
        answers(candidates(entries, query, now)[k].entry, query, now),
        candidates(entries, query, now)[k].score == score(
            candidates(entries, query, now)[k].entry.content@,
            query,
        ),
        entries.contains(candidates(entries, query, now)[k].entry),
    decreases entries.len(),
{
    let front = entries.drop_last();
    let before = candidates(front, query, now);
    if k < before.len() {
        lemma_candidates(front, query, now, k);
        let e = before[k].entry;
        let m = choose|m: int| 0 <= m < front.len() && front[m] == e;
        assert(entries[m] == e);
    } else {
        assert(entries[entries.len() - 1] == entries.last());
    }
}

/// What a query brings comes with the best answers first.
pub proof fn law_recall_brings_the_best_first(
    entries: Seq<MemoryEntry>,
    query: Seq<char>,
    limit: nat,
    now: u64,
    i: int,
    j: int,
)
    requires
        0 <= i < j < recalled(entries, query, limit, now).len(),
    ensures
        score(recalled(entries, query, limit, now)[i].content@, query) >= score(
            recalled(entries, query, limit, now)[j].content@,
            query,
        ),
{
    let found = candidates(entries, query, now);
    let order = ranked(found);
    lemma_ranked_in_order(found);
    lemma_ranked_permutes(found);
    assert(!order[j].before(&order[i]));
    assert forall|n: int| 0 <= n < order.len() implies (#[trigger] order[n]).score == score(
        order[n].entry.content@,
        query,
    ) by {
        let scored = order[n];
        assert(order.contains(scored));
        assert(found.contains(scored)) by {
            broadcast use vstd::seq_lib::group_to_multiset_ensures;

            assert(order.to_multiset().count(scored) > 0);
            assert(found.to_multiset().count(scored) > 0);
        }
        let k = choose|k: int| 0 <= k < found.len() && found[k] == scored;
        lemma_candidates(entries, query, now, k);
    }
}

/// A fact that was kept for some days is remembered until they have passed, and
/// one that was kept without a limit is always remembered.
pub proof fn law_facts_live_for_their_days(entry: MemoryEntry, noted_at: u64, days: u64, now: u64)
    ensures
        entry.expires_at is None ==> remembered(entry, now),
        entry.expires_at == Some(expiry(noted_at, days)) && noted_at + days * 86400 <= u64::MAX ==> (
        remembered(entry, now) <==> now < noted_at + days * 86400),
{
}

/// A query always brings the fact with exactly its words, as long as it is
/// remembered and there is room.
pub proof fn law_exact_words_are_found(entry: MemoryEntry, query: Seq<char>, now: u64)
    requires
        remembered(entry, now),
        lowercase(entry.content@) == lowercase(query),
        lowercase(query).len() > 0,
    ensures
        answers(entry, query, now),
        score(entry.content@, query) >= 100,
{
    let q = lowercase(query);
    assert(q.subrange(0, q.len() as int) =~= q);
    assert(crate::text::occurs_at(q, q, 0));
}

/// The tool that notes a fact.
#[derive(Clone, Copy, Debug, PartialEq, Eq)]
pub struct RememberTool;

impl RememberTool {
    /// The tool.
    pub fn new() -> (tool: RememberTool)
        ensures
            tool == RememberTool,
    {
        RememberTool
    }

    /// What the model is told of a fact that has been noted.
    pub fn report(&self, entry: &MemoryEntry) -> (text: String)
        ensures
            text@ == "已保存长期记忆，id="@ + entry.id@,
    {
        let mut text = "已保存长期记忆，id=".to_owned();
        text.append(entry.id.as_str());
        text
    }
}

impl Tool for RememberTool {
    open spec fn described(&self) -> ToolSpecView {
        ToolSpecView {
            name: "remember"@,
            description: "长期保存用户明确要求记住的偏好、约定或项目事实"@,
            parameters: JsonView::Object(
                object_schema(
                    no_entries().push(("content"@, described_kind("string"@, "要记住的自足事实"@))).push(
                        (
                            "ttl_days"@,
                            described_kind("integer"@, "可选有效天数；省略表示长期有效"@),
                        ),
                    ),
                    seq!["content"@],
                ).push(("additionalProperties"@, JsonView::Bool(false))),
            ),
        }
    }

    open spec fn harmless(&self) -> bool {
        false
    }

    fn spec(&self) -> (out: ToolSpec) {
        let properties = Entries::new().with(
            "content",
            described_kind_value("string", "要记住的自足事实"),
        ).with("ttl_days", described_kind_value("integer", "可选有效天数；省略表示长期有效"));
        ToolSpec {
            name: "remember".to_owned(),
            description: "长期保存用户明确要求记住的偏好、约定或项目事实".to_owned(),
            parameters: object_schema_entries(properties, &name_list("content")).with_bool(
                "additionalProperties",
                false,
            ).object(),
        }
    }

    fn is_read_only(&self) -> (read_only: bool) {
        false
    }
}

/// The tool that finds facts again.
#[derive(Clone, Copy, Debug, PartialEq, Eq)]
pub struct RecallMemoryTool;

impl RecallMemoryTool {
    /// The tool.
    pub fn new() -> (tool: RecallMemoryTool)
        ensures
            tool == RecallMemoryTool,
    {
        RecallMemoryTool
    }

    /// What the model is told of the facts that were found: their JSON text, or
    /// that there are none.
    pub fn report(&self, found: &Vec<MemoryEntry>, json: &str) -> (text: String)
        ensures
            text@ == (if found@.len() == 0 {
                "未找到相关长期记忆"@
            } else {
                json@
            }),
    {
        if found.len() == 0 {
            "未找到相关长期记忆".to_owned()
        } else {
            json.to_owned()
        }
    }
}

impl Tool for RecallMemoryTool {
    open spec fn described(&self) -> ToolSpecView {
        ToolSpecView {
            name: "recall_memory"@,
            description: "按关键词与中文相邻双字召回长期记忆；处理偏好或既有约定前可调用"@,
            parameters: JsonView::Object(
                object_schema(
                    no_entries().push(("query"@, described_kind("string"@, "召回查询"@))).push(
                        (
                            "limit"@,
                            described_kind("integer"@, "最多返回条数，默认 5，最大 20"@),
                        ),
                    ),
                    seq!["query"@],
                ).push(("additionalProperties"@, JsonView::Bool(false))),
            ),
        }
    }

    open spec fn harmless(&self) -> bool {
        true
    }

    fn spec(&self) -> (out: ToolSpec) {
        let properties = Entries::new().with("query", described_kind_value("string", "召回查询")).with(
            "limit",
            described_kind_value("integer", "最多返回条数，默认 5，最大 20"),
        );
        ToolSpec {
            name: "recall_memory".to_owned(),
            description: "按关键词与中文相邻双字召回长期记忆；处理偏好或既有约定前可调用".to_owned(),
            parameters: object_schema_entries(properties, &name_list("query")).with_bool(
                "additionalProperties",
                false,
            ).object(),
        }
    }

    fn is_read_only(&self) -> (read_only: bool) {
        true
    }
}

/// A fact that is still remembered and shares a term with a query is an answer to it.
pub proof fn law_a_shared_term_makes_an_answer(
    entry: MemoryEntry,
    query: Seq<char>,
    now: u64,
    term: Seq<char>,
)
    requires
        entry.expires_at matches Some(end) ==> end > now,
        term_set(entry.content@).contains(term),
        term_set(query).contains(term),
    ensures
        answers(entry, query, now),
        score(entry.content@, query) > 0,
{
    let common = term_set(entry.content@).intersect(term_set(query));
    lemma_term_set_finite(entry.content@);
    vstd::set_lib::lemma_len_intersect(term_set(entry.content@), term_set(query));
    assert(common.contains(term));
    assert(common.finite());
    assert(common.len() > 0) by {
        if common.len() == 0 {
            assert(common =~= Set::empty());
        }
    }
}

/// Every shared term counts: a fact answers a query at least as well as the number of terms
/// that they share, and one that shares more terms never worse, where neither fact stands
/// in the query or the query in it. Where one stands in the other a hundred terms could
/// count no more.
pub proof fn law_more_shared_terms_never_count_less(
    a: Seq<char>,
    b: Seq<char>,
    query: Seq<char>,
)
    ensures
        term_set(a).intersect(term_set(query)).len() <= usize::MAX ==> score(a, query)
            >= term_set(a).intersect(term_set(query)).len(),
        term_set(a).intersect(term_set(query)).len() > usize::MAX ==> score(a, query) == usize::MAX,
        !speaks_of(a, query) && !speaks_of(b, query) && term_set(a).intersect(
            term_set(query),
        ).len() <= term_set(b).intersect(term_set(query)).len() ==> score(a, query) <= score(
            b,
            query,
        ),
        !speaks_of(a, query) && !speaks_of(b, query) && term_set(a).intersect(
            term_set(query),
        ).len() < term_set(b).intersect(term_set(query)).len() <= usize::MAX ==> score(a, query)
            < score(b, query),
        speaks_of(a, query) && term_set(a).intersect(term_set(query)).len() <= usize::MAX - 100
            ==> score(a, query) == term_set(a).intersect(term_set(query)).len() + 100,
        !speaks_of(a, query) && term_set(a).intersect(term_set(query)).len() == 0 ==> score(
            a,
            query,
        ) == 0,
{
}

/// A fact and a query speak of one another where either stands in the other, whatever their
/// capitals.
pub proof fn law_speaking_of_one_another(
    content: Seq<char>,
    query: Seq<char>,
    before: Seq<char>,
    behind: Seq<char>,
)
    requires
        lowercase(query).len() > 0,
    ensures
        lowercase(content) == before + lowercase(query) + behind ==> speaks_of(content, query),
        lowercase(query) == before + lowercase(content) + behind ==> speaks_of(content, query),
{
    crate::text::law_text_contains_its_pieces(
        lowercase(content),
        before,
        lowercase(query),
        behind,
    );
    crate::text::law_text_contains_its_pieces(
        lowercase(query),
        before,
        lowercase(content),
        behind,
    );
}

/// Nothing that answers a query is missed: where there is room, every answer is brought, and
/// where there is not, none that is left out is better than one that is brought. There is
/// room for as many as are asked for, from one up to twenty.
pub proof fn law_recall_misses_no_better_answer(
    entries: Seq<MemoryEntry>,
    query: Seq<char>,
    limit: nat,
    now: u64,
    k: int,
)
    requires
        0 <= k < entries.len(),
        answers(entries[k], query, now),
    ensures
        1 <= limit <= 20 ==> recalled(entries, query, limit, now).len() <= limit,
        recalled(entries, query, limit, now).len() > 0,
        recalled(entries, query, limit, now).contains(entries[k]) || (recalled(
            entries,
            query,
            limit,
            now,
        ).len() == (if limit < 1 {
            1
        } else if limit > 20 {
            20
        } else {
            limit
        }) && forall|i: int|
            0 <= i < recalled(entries, query, limit, now).len() ==> score(
                (#[trigger] recalled(entries, query, limit, now)[i]).content@,
                query,
            ) >= score(entries[k].content@, query)),
{
    let found = candidates(entries, query, now);
    let order = ranked(found);
    let out = recalled(entries, query, limit, now);
    let scored = ScoredEntry { score: score(entries[k].content@, query), entry: entries[k] };
    lemma_answer_is_candidate(entries, query, now, k);
    lemma_ranked_permutes(found);
    lemma_ranked_in_order(found);
    assert(order.contains(scored)) by {
        broadcast use vstd::seq_lib::group_to_multiset_ensures;

        assert(found.to_multiset().count(scored) > 0);
        assert(order.to_multiset().count(scored) > 0);
    }
    let at = choose|at: int| 0 <= at < order.len() && order[at] == scored;
    if at < out.len() {
        assert(out[at] == entries[k]);
    } else {
        assert forall|i: int| 0 <= i < out.len() implies score(
            (#[trigger] out[i]).content@,
            query,
        ) >= score(entries[k].content@, query) by {
            assert(!order[at].before(&order[i]));
            lemma_order_scores(entries, query, now, i);
        }
    }
}

proof fn lemma_order_scores(entries: Seq<MemoryEntry>, query: Seq<char>, now: u64, i: int)
    requires
        0 <= i < ranked(candidates(entries, query, now)).len(),
    ensures
        ranked(candidates(entries, query, now))[i].score == score(
            ranked(candidates(entries, query, now))[i].entry.content@,
            query,
        ),
{
    let found = candidates(entries, query, now);
    let order = ranked(found);
    let scored = order[i];
    lemma_ranked_permutes(found);
    assert(order.contains(scored));
    assert(found.contains(scored)) by {
        broadcast use vstd::seq_lib::group_to_multiset_ensures;

        assert(order.to_multiset().count(scored) > 0);
        assert(found.to_multiset().count(scored) > 0);
    }
    let k = choose|k: int| 0 <= k < found.len() && found[k] == scored;
    lemma_candidates(entries, query, now, k);
}

proof fn lemma_answer_is_candidate(entries: Seq<MemoryEntry>, query: Seq<char>, now: u64, k: int)
    requires
        0 <= k < entries.len(),
        answers(entries[k], query, now),
    ensures
        candidates(entries, query, now).contains(
            ScoredEntry { score: score(entries[k].content@, query), entry: entries[k] },
        ),
    decreases entries.len(),
{
    let scored = ScoredEntry { score: score(entries[k].content@, query), entry: entries[k] };
    let front = entries.drop_last();
    let all = candidates(entries, query, now);
    if k == entries.len() - 1 {
        assert(all[all.len() - 1] == scored);
    } else {
        lemma_answer_is_candidate(front, query, now, k);
        let before = candidates(front, query, now);
        let n = choose|n: int| 0 <= n < before.len() && before[n] == scored;
        assert(all[n] == scored);
    }
}

/// Of two facts that a query brings and that answer it equally well, one noted by hand comes
/// before one that was not, and of two alike in that the newer one.
pub proof fn law_equal_answers_by_hand_and_then_newer_first(
    entries: Seq<MemoryEntry>,
    query: Seq<char>,
    limit: nat,
    now: u64,
    i: int,
    j: int,
)
    requires
        0 <= i < j < recalled(entries, query, limit, now).len(),
        score(recalled(entries, query, limit, now)[i].content@, query) == score(
            recalled(entries, query, limit, now)[j].content@,
            query,
        ),
    ensures
        recalled(entries, query, limit, now)[j].manual ==> recalled(entries, query, limit, now)[i].manual,
        recalled(entries, query, limit, now)[i].manual == recalled(entries, query, limit, now)[j].manual
            ==> recalled(entries, query, limit, now)[i].created_at >= recalled(
            entries,
            query,
            limit,
            now,
        )[j].created_at,
{
    let found = candidates(entries, query, now);
    let order = ranked(found);
    lemma_ranked_in_order(found);
    assert(!order[j].before(&order[i]));
    lemma_order_scores(entries, query, now, i);
    lemma_order_scores(entries, query, now, j);
}

/// As many facts are recalled as were asked for, at least one and at most twenty, where so
/// many answer.
pub proof fn law_recall_brings_as_many_as_asked_for(
    entries: Seq<MemoryEntry>,
    query: Seq<char>,
    limit: nat,
    now: u64,
)
    ensures
        ({
            let count = recalled(entries, query, limit, now).len();
            let found = entries.filter(
                |entry: MemoryEntry| remembered(entry, now) && score(entry.content@, query) > 0,
            ).len();
            &&& 1 <= limit <= 20 && limit <= found ==> count == limit
            &&& limit == 0 && found > 0 ==> count == 1
            &&& limit > 20 && found >= 20 ==> count == 20
            &&& found <= 20 && found <= limit ==> count == found
        }),
{
    lemma_candidates_counted(entries, query, now);
    crate::order::lemma_ranked_permutes(candidates(entries, query, now));
}

proof fn lemma_candidates_counted(entries: Seq<MemoryEntry>, query: Seq<char>, now: u64)
    ensures
        candidates(entries, query, now).len() == entries.filter(
            |entry: MemoryEntry| remembered(entry, now) && score(entry.content@, query) > 0,
        ).len(),
    decreases entries.len(),
{
    reveal(Seq::filter);
    if entries.len() > 0 {
        lemma_candidates_counted(entries.drop_last(), query, now);
    }
}

/// A live fact that shares a term with the query is recalled wherever there is room for all
/// facts.
pub proof fn law_fact_with_a_shared_term_is_recalled(
    entries: Vec<MemoryEntry>,
    query: &str,
    limit: usize,
    now: u64,
    out: Vec<MemoryEntry>,
    k: int,
    term: Seq<char>,
)
    requires
        call_ensures(MemoryStore::recall, (entries, query, limit, now), out),
        0 <= k < entries@.len(),
        entries@.len() <= limit,
        entries@.len() <= 20,
        entries@[k].expires_at matches Some(end) ==> end > now,
        term_set(entries@[k].content@).contains(term),
        term_set(query@).contains(term),
    ensures
        out@.contains(entries@[k]),
{
    law_a_shared_term_makes_an_answer(entries@[k], query@, now, term);
    law_recall_brings_as_many_as_asked_for(entries@, query@, limit as nat, now);
    lemma_every_answer_is_a_candidate(entries@, query@, now, k);
    let found = candidates(entries@, query@, now);
    let order = ranked(found);
    crate::order::lemma_ranked_permutes(found);
    lemma_no_more_candidates(entries@, query@, now);
    let c = choose|c: int| 0 <= c < found.len() && (#[trigger] found[c]).entry == entries@[k];
    assert(order.contains(found[c])) by {
        broadcast use vstd::seq_lib::group_to_multiset_ensures;

        assert(found.contains(found[c]));
        assert(found.to_multiset().count(found[c]) > 0);
        assert(order.to_multiset().count(found[c]) > 0);
    }
    let p = choose|p: int| 0 <= p < order.len() && order[p] == found[c];
    assert(out@[p] == entries@[k]);
}

proof fn lemma_every_answer_is_a_candidate(
    entries: Seq<MemoryEntry>,
    query: Seq<char>,
    now: u64,
    k: int,
)
    requires
        0 <= k < entries.len(),
        answers(entries[k], query, now),
    ensures
        exists|c: int|
            0 <= c < candidates(entries, query, now).len() && (#[trigger] candidates(
                entries,
                query,
                now,
            )[c]).entry == entries[k],
    decreases entries.len(),
{
    let front = entries.drop_last();
    let before = candidates(front, query, now);
    let all = candidates(entries, query, now);
    if k < front.len() {
        lemma_every_answer_is_a_candidate(front, query, now, k);
        let c = choose|c: int| 0 <= c < before.len() && (#[trigger] before[c]).entry == front[k];
        assert(all[c] == before[c]);
    } else {
        assert(all[before.len() as int].entry == entries[k]);
    }
}

proof fn lemma_no_more_candidates(entries: Seq<MemoryEntry>, query: Seq<char>, now: u64)
    ensures
        candidates(entries, query, now).len() <= entries.len(),
    decreases entries.len(),
{
    if entries.len() > 0 {
        lemma_no_more_candidates(entries.drop_last(), query, now);
    }
}

/// A fact is noted as it was said, by hand, now, and for as many days as were given.
pub proof fn law_facts_are_noted_as_said(
    content: String,
    ttl_days: Option<u64>,
    now: u64,
    sequence: u64,
    entry: MemoryEntry,
    later: u64,
)
    requires
        call_ensures(MemoryStore::save, (content, ttl_days, now, sequence), entry),
    ensures
        entry.content@ == content@,
        entry.created_at == now,
        entry.manual,
        ttl_days is None ==> remembered(entry, later),
        ttl_days matches Some(days) ==> (now + days * 86400 <= u64::MAX ==> (remembered(
            entry,
            later,
        ) <==> later < now + days * 86400)),
{
    if let Some(days) = ttl_days {
        law_facts_live_for_their_days(entry, now, days, later);
    }
}

/// A fact is noted only where it is said, and facts are recalled only where something is
/// asked; any text will do for either. Only recalling changes nothing.
pub proof fn law_memory_tools_need_their_text(
    entries: Seq<(Seq<char>, JsonView)>,
    text: Seq<char>,
    path: Seq<char>,
)
    ensures
        ({
            let note = RememberTool.described().parameters;
            let ask = RecallMemoryTool.described().parameters;
            &&& (forall|k: int| 0 <= k < entries.len() ==> (#[trigger] entries[k]).0 != "content"@)
                ==> crate::tools::complaint(note, JsonView::Object(entries), path) == Some(
                path + " 缺少必填字段 "@ + "content"@,
            )
            &&& crate::tools::complaint(
                note,
                JsonView::Object(seq![("content"@, JsonView::Text(text))]),
                path,
            ) is None
            &&& (forall|k: int| 0 <= k < entries.len() ==> (#[trigger] entries[k]).0 != "query"@)
                ==> crate::tools::complaint(ask, JsonView::Object(entries), path) == Some(
                path + " 缺少必填字段 "@ + "query"@,
            )
            &&& crate::tools::complaint(
                ask,
                JsonView::Object(seq![("query"@, JsonView::Text(text))]),
                path,
            ) is None
            &&& !RememberTool.harmless()
            &&& RecallMemoryTool.harmless()
        }),
{
    let noted = no_entries().push(("content"@, described_kind("string"@, "要记住的自足事实"@))).push(
        ("ttl_days"@, described_kind("integer"@, "可选有效天数；省略表示长期有效"@)),
    );
    crate::tools::exec::law_schema_says_what_it_was_made_of(
        noted,
        seq!["content"@],
        "string"@,
        "string"@,
    );
    crate::json::law_objects_give_the_first_entry_of_a_key(noted, "content"@, 0);
    crate::tools::exec::law_schema_asks_for_its_text(
        RememberTool.described().parameters,
        noted,
        "content"@,
        "要记住的自足事实"@,
        entries,
        text,
        path,
    );
    let asked = no_entries().push(("query"@, described_kind("string"@, "召回查询"@))).push(
        ("limit"@, described_kind("integer"@, "最多返回条数，默认 5，最大 20"@)),
    );
    crate::tools::exec::law_schema_says_what_it_was_made_of(
        asked,
        seq!["query"@],
        "string"@,
        "string"@,
    );
    crate::json::law_objects_give_the_first_entry_of_a_key(asked, "query"@, 0);
    crate::tools::exec::law_schema_asks_for_its_text(
        RecallMemoryTool.described().parameters,
        asked,
        "query"@,
        "召回查询"@,
        entries,
        text,
        path,
    );
}

} // verus!

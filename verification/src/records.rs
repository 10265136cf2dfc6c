//! Files that hold one record per line.
use vstd::prelude::*;

use crate::text::{is_blank, is_blank_text, texts};

verus! {

/// The position of the first line that is filled and holds no record, the number
/// of lines where there is none.
pub open spec fn first_broken<T>(
    list: Seq<Seq<char>>,
    parsed: Seq<Result<T, String>>,
    from: int,
) -> int
    decreases list.len() - from,
{
    if from >= list.len() {
        list.len() as int
    } else if !is_blank_text(list[from]) && parsed[from] is Err {
        from
    } else {
        first_broken(list, parsed, from + 1)
    }
}

/// The records of the filled lines among the first `n`.
pub open spec fn records_before<T>(
    list: Seq<Seq<char>>,
    parsed: Seq<Result<T, String>>,
    n: int,
) -> Seq<T>
    decreases n,
{
    if n <= 0 {
        Seq::empty()
    } else if !is_blank_text(list[n - 1]) && parsed[n - 1] is Ok {
        records_before(list, parsed, n - 1).push(parsed[n - 1]->Ok_0)
    } else {
        records_before(list, parsed, n - 1)
    }
}

/// Whether all records of a file can be had: every filled line holds one, but for
/// the last where that may have been cut short.
pub open spec fn readable<T>(
    list: Seq<Seq<char>>,
    parsed: Seq<Result<T, String>>,
    may_be_cut: bool,
) -> bool {
    let broken = first_broken(list, parsed, 0);
    broken == list.len() || (broken == list.len() - 1 && may_be_cut)
}

/// The records of a file, or the number of the first line that holds none and
/// what is wrong with it. `parsed` holds what each line was read as.
pub fn restore<T>(list: &Vec<String>, parsed: Vec<Result<T, String>>, may_be_cut: bool) -> (out:
    Result<Vec<T>, (usize, String)>)
    requires
        list@.len() == parsed@.len(),
    ensures
        ({
            let broken = first_broken(texts(list@), parsed@, 0);
            if readable(texts(list@), parsed@, may_be_cut) {
                out matches Ok(records) && records@ == records_before(texts(list@), parsed@, broken)
            } else {
                out matches Err((line, source)) && line == broken + 1 && parsed@[broken] == Err::<
                    T,
                    String,
                >(source)
            }
        }),
{
    let count = list.len();
    let mut records: Vec<T> = Vec::new();
    let mut at: usize = 0;
    for item in iter: parsed
        invariant
            count == list@.len(),
            iter.seq() == parsed@,
            list@.len() == parsed@.len(),
            at == iter.index(),
            records@ == records_before(texts(list@), parsed@, at as int),
            first_broken(texts(list@), parsed@, 0) == first_broken(texts(list@), parsed@, at as int),
    {
        assert(item == parsed@[at as int]);
        assert(texts(list@)[at as int] == list@[at as int]@);
        if !is_blank(list[at].as_str()) {
            match item {
                Ok(record) => {
                    records.push(record);
                },
                Err(source) => {
                    if at + 1 == count && may_be_cut {
                        return Ok(records);
                    }
                    return Err((at + 1, source));
                },
            }
        }
        at += 1;
    }
    Ok(records)
}

/// A last line that was cut short does not keep the records before it from being
/// restored.
pub proof fn law_cut_last_line_is_left_out<T>(list: Seq<Seq<char>>, parsed: Seq<Result<T, String>>)
    requires
        list.len() == parsed.len(),
        list.len() > 0,
        forall|i: int| 0 <= i < list.len() - 1 ==> #[trigger] parsed[i] is Ok,
        !is_blank_text(list.last()),
        parsed.last() is Err,
    ensures
        first_broken(list, parsed, 0) == list.len() - 1,
        readable(list, parsed, true),
        !readable(list, parsed, false),
{
    lemma_first_broken_is(list, parsed, 0, list.len() - 1);
}

proof fn lemma_first_broken_is<T>(
    list: Seq<Seq<char>>,
    parsed: Seq<Result<T, String>>,
    from: int,
    at: int,
)
    requires
        0 <= from <= at < list.len(),
        list.len() == parsed.len(),
        forall|i: int|
            from <= i < at ==> is_blank_text(#[trigger] list[i]) || parsed[i] is Ok,
        !is_blank_text(list[at]) && parsed[at] is Err,
    ensures
        first_broken(list, parsed, from) == at,
    decreases at - from,
{
    if from < at {
        assert(is_blank_text(list[from]) || parsed[from] is Ok);
        lemma_first_broken_is(list, parsed, from + 1, at);
    }
}

/// Where every line is a filled record, all records are restored, in order.
pub proof fn law_whole_records_are_all_restored<T>(
    list: Seq<Seq<char>>,
    parsed: Seq<Result<T, String>>,
    n: int,
)
    requires
        list.len() == parsed.len(),
        0 <= n <= list.len(),
        forall|i: int| 0 <= i < list.len() ==> !is_blank_text(#[trigger] list[i]),
        forall|i: int| 0 <= i < list.len() ==> #[trigger] parsed[i] is Ok,
    ensures
        first_broken(list, parsed, n) == list.len(),
        records_before(list, parsed, n) == Seq::new(n as nat, |i: int| parsed[i]->Ok_0),
    decreases list.len() - n, n,
{
    lemma_none_broken(list, parsed, n);
    lemma_all_before(list, parsed, n);
}

proof fn lemma_none_broken<T>(list: Seq<Seq<char>>, parsed: Seq<Result<T, String>>, n: int)
    requires
        list.len() == parsed.len(),
        0 <= n <= list.len(),
        forall|i: int| 0 <= i < list.len() ==> #[trigger] parsed[i] is Ok,
    ensures
        first_broken(list, parsed, n) == list.len(),
    decreases list.len() - n,
{
    if n < list.len() {
        assert(parsed[n] is Ok);
        lemma_none_broken(list, parsed, n + 1);
    }
}

proof fn lemma_all_before<T>(list: Seq<Seq<char>>, parsed: Seq<Result<T, String>>, n: int)
    requires
        list.len() == parsed.len(),
        0 <= n <= list.len(),
        forall|i: int| 0 <= i < list.len() ==> !is_blank_text(#[trigger] list[i]),
        forall|i: int| 0 <= i < list.len() ==> #[trigger] parsed[i] is Ok,
    ensures
        records_before(list, parsed, n) == Seq::new(n as nat, |i: int| parsed[i]->Ok_0),
    decreases n,
{
    let all = Seq::new(n as nat, |i: int| parsed[i]->Ok_0);
    if n > 0 {
        lemma_all_before(list, parsed, n - 1);
        assert(!is_blank_text(list[n - 1]) && parsed[n - 1] is Ok);
        assert(all =~= Seq::new((n - 1) as nat, |i: int| parsed[i]->Ok_0).push(
            parsed[n - 1]->Ok_0,
        ));
    } else {
        assert(all =~= Seq::empty());
    }
}

/// A file can be read exactly where every filled line holds a record, but for the last
/// line of a file that may have been cut short.
pub proof fn law_file_is_readable_without_broken_lines<T>(
    list: Seq<Seq<char>>,
    parsed: Seq<Result<T, String>>,
    may_be_cut: bool,
)
    requires
        list.len() == parsed.len(),
    ensures
        readable(list, parsed, may_be_cut) <==> forall|i: int|
            0 <= i < list.len() && !is_blank_text(#[trigger] list[i]) && parsed[i] is Err ==> i
                == list.len() - 1 && may_be_cut,
{
    lemma_broken_is_first(list, parsed, 0);
    let broken = first_broken(list, parsed, 0);
    if broken < list.len() {
        assert(!is_blank_text(list[broken]));
    }
}

proof fn lemma_broken_is_first<T>(list: Seq<Seq<char>>, parsed: Seq<Result<T, String>>, from: int)
    requires
        list.len() == parsed.len(),
        0 <= from <= list.len(),
    ensures
        from <= first_broken(list, parsed, from) <= list.len(),
        first_broken(list, parsed, from) < list.len() ==> !is_blank_text(
            list[first_broken(list, parsed, from)],
        ) && parsed[first_broken(list, parsed, from)] is Err,
        forall|i: int|
            from <= i < first_broken(list, parsed, from) ==> is_blank_text(#[trigger] list[i])
                || parsed[i] is Ok,
    decreases list.len() - from,
{
    if from < list.len() && !(!is_blank_text(list[from]) && parsed[from] is Err) {
        lemma_broken_is_first(list, parsed, from + 1);
    }
}

/// The records of a file are those of its filled lines, one for each and in their order:
/// the `i`th line stands for the record at as many places as filled lines stand before it.
pub proof fn law_every_filled_line_gives_its_record<T>(
    list: Seq<Seq<char>>,
    parsed: Seq<Result<T, String>>,
    n: int,
    i: int,
)
    requires
        list.len() == parsed.len(),
        0 <= i < n <= list.len(),
        forall|k: int| 0 <= k < n && !is_blank_text(#[trigger] list[k]) ==> parsed[k] is Ok,
        !is_blank_text(list[i]),
    ensures
        records_before(list, parsed, n).len() == list.take(n).filter(
            |line: Seq<char>| !is_blank_text(line),
        ).len(),
        list.take(i).filter(|line: Seq<char>| !is_blank_text(line)).len() < records_before(
            list,
            parsed,
            n,
        ).len(),
        records_before(list, parsed, n)[list.take(i).filter(
            |line: Seq<char>| !is_blank_text(line),
        ).len() as int] == parsed[i]->Ok_0,
    decreases n,
{
    let filled = |line: Seq<char>| !is_blank_text(line);
    lemma_records_are_filled(list, parsed, n);
    lemma_records_are_filled(list, parsed, i);
    if i == n - 1 {
        lemma_records_are_filled(list, parsed, n - 1);
    } else {
        assert(parsed[i] is Ok);
        law_every_filled_line_gives_its_record(list, parsed, n - 1, i);
    }
}

proof fn lemma_records_are_filled<T>(list: Seq<Seq<char>>, parsed: Seq<Result<T, String>>, n: int)
    requires
        list.len() == parsed.len(),
        0 <= n <= list.len(),
        forall|k: int| 0 <= k < n && !is_blank_text(#[trigger] list[k]) ==> parsed[k] is Ok,
    ensures
        records_before(list, parsed, n).len() == list.take(n).filter(
            |line: Seq<char>| !is_blank_text(line),
        ).len(),
    decreases n,
{
    let filled = |line: Seq<char>| !is_blank_text(line);
    reveal(Seq::filter);
    if n > 0 {
        lemma_records_are_filled(list, parsed, n - 1);
        assert(list.take(n).drop_last() =~= list.take(n - 1));
        assert(list.take(n).last() == list[n - 1]);
    }
}

/// Records are restored from every line with text where all can be read; else the first line
/// that cannot is told by its number, counted from one.
pub proof fn law_first_broken_line_is_told_by_its_number<T>(
    list: &Vec<String>,
    parsed: Vec<Result<T, String>>,
    may_be_cut: bool,
    out: Result<Vec<T>, (usize, String)>,
    i: int,
)
    requires
        call_ensures(restore::<T>, (list, parsed, may_be_cut), out),
        list@.len() == parsed@.len(),
        0 <= i < list@.len(),
        !is_blank_text(list@[i]@),
        parsed@[i] is Err,
        forall|k: int| 0 <= k < i ==> is_blank_text((#[trigger] list@[k])@) || parsed@[k] is Ok,
        !(may_be_cut && i == list@.len() - 1),
    ensures
        out matches Err((line, source)) && line == i + 1 && parsed@[i] == Err::<T, String>(source),
{
    let lines = texts(list@);
    lemma_first_broken_is(lines, parsed@, 0, i);
}

} // verus!

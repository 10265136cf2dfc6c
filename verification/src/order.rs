//! Ordering: texts by their characters, and a stable sort for anything ranked.
use vstd::prelude::*;

use crate::text::chars_of;

verus! {

/// Whether one text stands before another in the order of their code points.
pub open spec fn text_before(a: Seq<char>, b: Seq<char>) -> bool
    decreases a.len(),
{
    if b.len() == 0 {
        false
    } else if a.len() == 0 {
        true
    } else if a[0] != b[0] {
        a[0] < b[0]
    } else {
        text_before(a.skip(1), b.skip(1))
    }
}

/// Whether one text stands before another.
pub fn is_text_before(left: &str, right: &str) -> (before: bool)
    ensures
        before == text_before(left@, right@),
{
    let a = chars_of(left);
    let b = chars_of(right);
    let mut at: usize = 0;
    assert(left@.skip(0) =~= left@);
    assert(right@.skip(0) =~= right@);
    loop
        invariant
            a@ == left@,
            b@ == right@,
            at <= a.len(),
            at <= b.len(),
            text_before(left@, right@) == text_before(left@.skip(at as int), right@.skip(at as int)),
        decreases a.len() - at,
    {
        if at == b.len() {
            return false;
        }
        if at == a.len() {
            return true;
        }
        if a[at] != b[at] {
            return a[at] < b[at];
        }
        assert(left@.skip(at as int).skip(1) =~= left@.skip(at + 1));
        assert(right@.skip(at as int).skip(1) =~= right@.skip(at + 1));
        at += 1;
    }
}

/// No text stands before itself, and of two different texts exactly one stands
/// before the other.
pub proof fn lemma_text_before_total(a: Seq<char>, b: Seq<char>)
    ensures
        !(text_before(a, b) && text_before(b, a)),
        a != b ==> text_before(a, b) || text_before(b, a),
        a == b ==> !text_before(a, b),
    decreases a.len(),
{
    if a.len() > 0 && b.len() > 0 && a[0] == b[0] {
        lemma_text_before_total(a.skip(1), b.skip(1));
        if a.skip(1) == b.skip(1) {
            assert(a =~= seq![a[0]] + a.skip(1));
            assert(b =~= seq![b[0]] + b.skip(1));
        }
    } else if a.len() == 0 && b.len() == 0 {
        assert(a =~= b);
    }
}

/// Standing before carries over.
pub proof fn lemma_text_before_transitive(a: Seq<char>, b: Seq<char>, c: Seq<char>)
    requires
        text_before(a, b),
        text_before(b, c),
    ensures
        text_before(a, c),
    decreases a.len(),
{
    if a.len() > 0 && b.len() > 0 && c.len() > 0 && a[0] == b[0] && b[0] == c[0] {
        lemma_text_before_transitive(a.skip(1), b.skip(1), c.skip(1));
    }
}

/// Values that have a rank among their kind.
pub trait Ranked: Sized {
    /// Whether this value comes strictly before the other.
    spec fn before(&self, other: &Self) -> bool;
}

/// Whether the rank of two values fits in with the ranks of all others: not both come
/// first, and what does not come before the later one does not come before the other.
pub open spec fn compared<T: Ranked>(a: T, b: T) -> bool {
    &&& !(a.before(&b) && b.before(&a))
    &&& forall|c: T|
        #![trigger c.before(&b)]
        !b.before(&a) && !c.before(&b) ==> !c.before(&a)
    &&& forall|c: T|
        #![trigger c.before(&a)]
        !a.before(&b) && !c.before(&a) ==> !c.before(&b)
}

/// Ranked values that can be told apart by their rank.
pub trait Sortable: Ranked {
    /// Whether this value comes strictly before the other.
    fn is_before(&self, other: &Self) -> (before: bool)
        ensures
            before == self.before(other),
            compared(*self, *other),
    ;
}

/// Ranked values whose rank is a strict weak order.
pub trait TotallyRanked: Ranked {
    /// The rank is asymmetric, and not coming after carries over.
    proof fn ranking_laws(a: &Self, b: &Self, c: &Self)
        ensures
            !(a.before(b) && b.before(a)),
            !b.before(a) && !c.before(b) ==> !c.before(a),
    ;
}

/// Where the rank is a strict weak order, two values fit in with all others.
pub proof fn lemma_compared<T: TotallyRanked>(a: T, b: T)
    ensures
        compared(a, b),
{
    T::ranking_laws(&a, &b, &b);
    assert forall|c: T| #![trigger c.before(&b)] !b.before(&a) && !c.before(&b) implies !c.before(
        &a,
    ) by {
        T::ranking_laws(&a, &b, &c);
    }
    assert forall|c: T| #![trigger c.before(&a)] !a.before(&b) && !c.before(&a) implies !c.before(
        &b,
    ) by {
        T::ranking_laws(&b, &a, &c);
    }
}

/// Where values rank as their views do, and these by a strict weak order, two values fit
/// in with all others.
pub proof fn lemma_compared_views<T: Ranked + View>(a: T, b: T) where T::V: TotallyRanked
    requires
        forall|a: T, b: T| #[trigger] a.before(&b) == a@.before(&b@),
    ensures
        compared(a, b),
{
    lemma_compared(a@, b@);
}

/// `x` put into a ranked sequence ahead of the first value that does not come before it.
pub open spec fn insert_ranked<T: Ranked>(x: T, list: Seq<T>) -> Seq<T>
    decreases list.len(),
{
    if list.len() == 0 {
        seq![x]
    } else if list[0].before(&x) {
        seq![list[0]] + insert_ranked(x, list.skip(1))
    } else {
        seq![x] + list
    }
}

/// The values of a sequence by rank; values of one rank keep their order.
pub open spec fn ranked<T: Ranked>(list: Seq<T>) -> Seq<T>
    decreases list.len(),
{
    if list.len() == 0 {
        Seq::empty()
    } else {
        insert_ranked(list[0], ranked(list.skip(1)))
    }
}

proof fn lemma_insert_at<T: Ranked>(x: T, list: Seq<T>, k: int)
    requires
        0 <= k <= list.len(),
        forall|j: int| 0 <= j < k ==> (#[trigger] list[j]).before(&x),
        k < list.len() ==> !list[k].before(&x),
    ensures
        insert_ranked(x, list) == list.insert(k, x),
    decreases k,
{
    if k == 0 {
        assert(list.insert(0, x) =~= seq![x] + list);
    } else {
        assert(list[0].before(&x));
        let rest = list.skip(1);
        assert forall|j: int| 0 <= j < k - 1 implies (#[trigger] rest[j]).before(&x) by {
            assert(list[j + 1].before(&x));
        }
        lemma_insert_at(x, rest, k - 1);
        assert(list.insert(k, x) =~= seq![list[0]] + rest.insert(k - 1, x));
    }
}

proof fn lemma_insert_in_order<T: Ranked>(x: T, list: Seq<T>, k: int)
    requires
        0 <= k <= list.len(),
        in_rank_order(list),
        forall|j: int| 0 <= j < k ==> (#[trigger] list[j]).before(&x) && !x.before(&list[j]),
        k < list.len() ==> !list[k].before(&x) && compared(list[k], x),
    ensures
        in_rank_order(list.insert(k, x)),
{
    let out = list.insert(k, x);
    assert forall|i: int, j: int|
        #![trigger out[i], out[j]]
        0 <= i < j < out.len() implies !out[j].before(&out[i]) by {
        let a = if i < k {
            i
        } else {
            i - 1
        };
        let b = if j < k {
            j
        } else {
            j - 1
        };
        if i == k {
            assert(out[j] == list[b]);
            if b > k {
                assert(!list[b].before(&list[k]));
            }
        } else if j == k {
            assert(list[a].before(&x));
        } else {
            assert(out[i] == list[a] && out[j] == list[b]);
        }
    }
}

/// The values of a vector by rank; values of one rank keep their order.
pub fn stable_sort<T: Sortable>(list: Vec<T>) -> (out: Vec<T>)
    ensures
        out@ == ranked(list@),
        in_rank_order(out@),
{
    let mut rest = list;
    let mut out: Vec<T> = Vec::new();
    assert(list@.skip(list@.len() as int) =~= Seq::empty());
    assert(rest@ =~= list@.take(list@.len() as int));
    while rest.len() > 0
        invariant
            rest@.len() <= list@.len(),
            rest@ == list@.take(rest@.len() as int),
            out@ == ranked(list@.skip(rest@.len() as int)),
            in_rank_order(out@),
        decreases rest.len(),
    {
        let ghost left = rest@.len() as int;
        let x = rest.pop().unwrap();
        let mut k: usize = 0;
        let mut found = false;
        while !found && k < out.len()
            invariant
                k <= out.len(),
                forall|j: int|
                    0 <= j < k ==> (#[trigger] out@[j]).before(&x) && !x.before(&out@[j]),
                found ==> k < out.len() && !out@[k as int].before(&x) && compared(
                    out@[k as int],
                    x,
                ),
            decreases
                out.len() - k,
                (if found {
                    0int
                } else {
                    1int
                }),
        {
            if out[k].is_before(&x) {
                k += 1;
            } else {
                found = true;
            }
        }
        proof {
            lemma_insert_at(x, out@, k as int);
            lemma_insert_in_order(x, out@, k as int);
            let tail = list@.skip(left - 1);
            assert(tail[0] == x);
            assert(tail.skip(1) =~= list@.skip(left));
            assert(rest@ =~= list@.take(left - 1));
        }
        out.insert(k, x);
    }
    assert(list@.skip(0) =~= list@);
    out
}

proof fn lemma_insert_ranked<T: Ranked>(x: T, list: Seq<T>)
    ensures
        insert_ranked(x, list).to_multiset() == list.to_multiset().insert(x),
        insert_ranked(x, list).len() == list.len() + 1,
    decreases list.len(),
{
    broadcast use vstd::seq_lib::group_to_multiset_ensures;

    if list.len() == 0 {
        assert(seq![x] =~= Seq::<T>::empty().push(x));
        assert(list =~= Seq::empty());
    } else if list[0].before(&x) {
        let rest = list.skip(1);
        lemma_insert_ranked(x, rest);
        vstd::seq_lib::lemma_multiset_commutative(seq![list[0]], insert_ranked(x, rest));
        vstd::seq_lib::lemma_multiset_commutative(seq![list[0]], rest);
        assert(list =~= seq![list[0]] + rest);
        assert(insert_ranked(x, list).to_multiset() =~= list.to_multiset().insert(x));
    } else {
        vstd::seq_lib::lemma_multiset_commutative(seq![x], list);
        assert(seq![x] =~= Seq::<T>::empty().push(x));
        assert(insert_ranked(x, list).to_multiset() =~= list.to_multiset().insert(x));
    }
}

/// Sorting loses no value and adds none.
pub proof fn lemma_ranked_permutes<T: Ranked>(list: Seq<T>)
    ensures
        ranked(list).to_multiset() == list.to_multiset(),
        ranked(list).len() == list.len(),
    decreases list.len(),
{
    broadcast use vstd::seq_lib::group_to_multiset_ensures;

    if list.len() == 0 {
        assert(list =~= Seq::empty());
    } else {
        let rest = list.skip(1);
        lemma_ranked_permutes(rest);
        lemma_insert_ranked(list[0], ranked(rest));
        vstd::seq_lib::lemma_multiset_commutative(seq![list[0]], rest);
        assert(list =~= seq![list[0]] + rest);
        assert(seq![list[0]] =~= Seq::<T>::empty().push(list[0]));
        assert(ranked(list).to_multiset() =~= list.to_multiset());
    }
}

/// The views of some values.
pub open spec fn views_of<T: View>(list: Seq<T>) -> Seq<T::V> {
    Seq::new(list.len(), |i: int| list[i]@)
}

proof fn lemma_insert_ranked_views<T: Ranked + View>(x: T, list: Seq<T>) where T::V: Ranked
    requires
        forall|a: T, b: T| #[trigger] a.before(&b) == a@.before(&b@),
    ensures
        views_of(insert_ranked(x, list)) == insert_ranked(x@, views_of(list)),
    decreases list.len(),
{
    let views = views_of(list);
    let all = views_of(insert_ranked(x, list));
    if list.len() == 0 {
        assert(all =~= seq![x@]);
    } else if list[0].before(&x) {
        let rest = list.skip(1);
        lemma_insert_ranked_views(x, rest);
        assert(views_of(rest) =~= views.skip(1));
        assert(all =~= seq![list[0]@] + views_of(insert_ranked(x, rest)));
    } else {
        assert(all =~= seq![x@] + views);
    }
}

/// Where values rank as their views do, sorting the values sorts the views.
pub proof fn lemma_ranked_views<T: Ranked + View>(list: Seq<T>) where T::V: Ranked
    requires
        forall|a: T, b: T| #[trigger] a.before(&b) == a@.before(&b@),
    ensures
        views_of(ranked(list)) == ranked(views_of(list)),
    decreases list.len(),
{
    if list.len() == 0 {
        assert(views_of(ranked(list)) =~= ranked(views_of(list)));
    } else {
        let rest = list.skip(1);
        lemma_ranked_views(rest);
        lemma_insert_ranked_views(list[0], ranked(rest));
        assert(views_of(rest) =~= views_of(list).skip(1));
    }
}

/// Whether no value of a sequence comes before an earlier one.
pub open spec fn in_rank_order<T: Ranked>(list: Seq<T>) -> bool {
    forall|i: int, j: int|
        #![trigger list[i], list[j]]
        0 <= i < j < list.len() ==> !list[j].before(&list[i])
}

proof fn lemma_insert_keeps_order<T: TotallyRanked>(x: T, list: Seq<T>)
    requires
        in_rank_order(list),
    ensures
        in_rank_order(insert_ranked(x, list)),
        forall|y: T| #![trigger insert_ranked(x, list).contains(y)]
            insert_ranked(x, list).contains(y) ==> y == x || list.contains(y),
    decreases list.len(),
{
    let out = insert_ranked(x, list);
    if list.len() == 0 {
    } else if list[0].before(&x) {
        let rest = list.skip(1);
        assert forall|i: int, j: int|
            #![trigger rest[i], rest[j]]
            0 <= i < j < rest.len() implies !rest[j].before(&rest[i]) by {
            assert(!list[j + 1].before(&list[i + 1]));
        }
        lemma_insert_keeps_order(x, rest);
        let tail = insert_ranked(x, rest);
        assert forall|i: int, j: int|
            #![trigger out[i], out[j]]
            0 <= i < j < out.len() implies !out[j].before(&out[i]) by {
            assert(out[j] == tail[j - 1]);
            if i > 0 {
                assert(out[i] == tail[i - 1]);
            } else {
                assert(tail.contains(out[j]));
                if out[j] == x {
                    T::ranking_laws(&list[0], &x, &x);
                } else {
                    let k = choose|k: int| 0 <= k < rest.len() && rest[k] == out[j];
                    assert(!list[k + 1].before(&list[0]));
                }
            }
        }
        assert forall|y: T| out.contains(y) implies y == x || list.contains(y) by {
            let k = choose|k: int| 0 <= k < out.len() && out[k] == y;
            if k == 0 {
                assert(list[0] == y);
            } else {
                assert(tail[k - 1] == y);
                assert(tail.contains(y));
                if y != x {
                    let m = choose|m: int| 0 <= m < rest.len() && rest[m] == y;
                    assert(list[m + 1] == y);
                }
            }
        }
    } else {
        assert forall|i: int, j: int|
            #![trigger out[i], out[j]]
            0 <= i < j < out.len() implies !out[j].before(&out[i]) by {
            assert(out[j] == list[j - 1]);
            if i > 0 {
                assert(out[i] == list[i - 1]);
            } else if j > 1 {
                assert(!list[j - 1].before(&list[0]));
                T::ranking_laws(&x, &list[0], &list[j - 1]);
            }
        }
        assert forall|y: T| out.contains(y) implies y == x || list.contains(y) by {
            let k = choose|k: int| 0 <= k < out.len() && out[k] == y;
            if k > 0 {
                assert(list[k - 1] == y);
            }
        }
    }
}

/// Sorting puts the values in the order of their ranks.
pub proof fn lemma_ranked_in_order<T: TotallyRanked>(list: Seq<T>)
    ensures
        in_rank_order(ranked(list)),
    decreases list.len(),
{
    if list.len() > 0 {
        lemma_ranked_in_order(list.skip(1));
        lemma_insert_keeps_order(list[0], ranked(list.skip(1)));
    }
}

/// The first character in which two texts differ decides which comes first, and a text
/// comes before every text that goes on from it.
pub proof fn law_first_difference_decides(
    front: Seq<char>,
    x: char,
    y: char,
    a: Seq<char>,
    b: Seq<char>,
)
    ensures
        x < y ==> text_before(front.push(x) + a, front.push(y) + b) && !text_before(
            front.push(y) + b,
            front.push(x) + a,
        ),
        text_before(front, front.push(y) + b),
        !text_before(front.push(y) + b, front),
    decreases front.len(),
{
    let one = front.push(x) + a;
    let other = front.push(y) + b;
    if front.len() == 0 {
        assert(one[0] == x && other[0] == y);
    } else {
        let rest = front.skip(1);
        law_first_difference_decides(rest, x, y, a, b);
        assert(one.skip(1) =~= rest.push(x) + a);
        assert(other.skip(1) =~= rest.push(y) + b);
        assert(one[0] == front[0] && other[0] == front[0]);
    }
}

/// Sorting keeps all values, and leaves values in their order none of which comes before
/// another.
pub proof fn law_sorting_is_stable<T: Ranked>(list: Seq<T>)
    ensures
        ranked(list).to_multiset() == list.to_multiset(),
        ranked(list).len() == list.len(),
        (forall|i: int, j: int|
            0 <= i < list.len() && 0 <= j < list.len() ==> !(#[trigger] list[i]).before(
                #[trigger] &list[j],
            )) ==> ranked(list) == list,
    decreases list.len(),
{
    lemma_ranked_permutes(list);
    if list.len() > 0 && (forall|i: int, j: int|
        0 <= i < list.len() && 0 <= j < list.len() ==> !(#[trigger] list[i]).before(
            #[trigger] &list[j],
        )) {
        let rest = list.skip(1);
        assert forall|i: int, j: int|
            0 <= i < rest.len() && 0 <= j < rest.len() implies !(#[trigger] rest[i]).before(
            #[trigger] &rest[j],
        ) by {
            assert(!list[i + 1].before(&list[j + 1]));
        }
        law_sorting_is_stable(rest);
        if rest.len() > 0 {
            assert(!list[1].before(&list[0]));
        }
        assert(ranked(list) =~= list);
    } else if list.len() == 0 {
        assert(ranked(list) =~= list);
    }
}

} // verus!

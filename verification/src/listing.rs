//! Lists that are put together from the lists of single items, or of pairs of
//! items: what they hold, and when they hold nothing twice.

use vstd::prelude::*;

use crate::ordered;

verus! {

/// The lists of the items, one after the other.
pub open spec fn each<T, V>(items: Seq<T>, f: spec_fn(T) -> Seq<V>) -> Seq<V>
    decreases items.len(),
{
    if items.len() == 0 {
        Seq::empty()
    } else {
        each(items.drop_last(), f) + f(items.last())
    }
}

/// The numbers from `from` up to and without `to`.
pub open spec fn range(from: int, to: int) -> Seq<int> {
    if from < to {
        Seq::new((to - from) as nat, |i: int| from + i)
    } else {
        Seq::empty()
    }
}

/// The lists of `i` with the numbers after it, up to and without `j`.
pub open spec fn row<V>(f: spec_fn(int, int) -> Seq<V>, i: int, j: int) -> Seq<V>
    decreases j - i,
{
    if j <= i + 1 {
        Seq::empty()
    } else {
        row(f, i, j - 1) + f(i, j - 1)
    }
}

/// The lists of the numbers below `i` with the numbers after them, below `n`.
pub open spec fn rows<V>(f: spec_fn(int, int) -> Seq<V>, n: int, i: int) -> Seq<V>
    decreases i,
{
    if i <= 0 {
        Seq::empty()
    } else {
        rows(f, n, i - 1) + row(f, i - 1, n)
    }
}

/// The lists of all pairs of numbers below `n`, the lower number first.
pub open spec fn each_pair<V>(f: spec_fn(int, int) -> Seq<V>, n: int) -> Seq<V> {
    rows(f, n, n)
}

/// Whether two lists have nothing in common.
pub open spec fn disjoint<V>(a: Seq<V>, b: Seq<V>) -> bool {
    forall|v: V| !(#[trigger] a.contains(v) && b.contains(v))
}

/// What two lists hold together.
pub proof fn lemma_concat_contains<V>(a: Seq<V>, b: Seq<V>, v: V)
    ensures
        (a + b).contains(v) <==> a.contains(v) || b.contains(v),
{
    let c = a + b;
    if a.contains(v) {
        let i = choose|i: int| 0 <= i < a.len() && a[i] == v;
        assert(c[i] == v);
    }
    if b.contains(v) {
        let i = choose|i: int| 0 <= i < b.len() && b[i] == v;
        assert(c[a.len() + i] == v);
    }
    if c.contains(v) {
        let i = choose|i: int| 0 <= i < c.len() && c[i] == v;
        if i < a.len() {
            assert(a[i] == v);
        } else {
            assert(b[i - a.len()] == v);
        }
    }
}

/// Two lists without repetitions and with nothing in common make one without
/// repetitions.
pub proof fn lemma_concat_once<V>(a: Seq<V>, b: Seq<V>)
    requires
        a.no_duplicates(),
        b.no_duplicates(),
        disjoint(a, b),
    ensures
        (a + b).no_duplicates(),
{
    let c = a + b;
    assert forall|i: int, j: int| 0 <= i < c.len() && 0 <= j < c.len() && i != j implies c[i] != c[j] by {
        if i < a.len() && j >= a.len() {
            assert(a.contains(a[i]) && b.contains(b[j - a.len()]));
        }
        if j < a.len() && i >= a.len() {
            assert(a.contains(a[j]) && b.contains(b[i - a.len()]));
        }
    }
}

/// One more item adds its list.
pub proof fn lemma_each_step<T, V>(items: Seq<T>, i: int, f: spec_fn(T) -> Seq<V>)
    requires
        0 <= i < items.len(),
    ensures
        each(items.take(i + 1), f) == each(items.take(i), f) + f(items[i]),
{
    assert(items.take(i + 1).drop_last() =~= items.take(i));
}

/// One more number adds its list.
pub proof fn lemma_range_step<V>(from: int, to: int, f: spec_fn(int) -> Seq<V>)
    requires
        from <= to,
    ensures
        each(range(from, to + 1), f) == each(range(from, to), f) + f(to),
{
    assert(range(from, to + 1).drop_last() =~= range(from, to));
    assert(range(from, to + 1).last() == to);
}

/// The lists of the items hold what one of them holds.
pub proof fn lemma_each_contains<T, V>(items: Seq<T>, f: spec_fn(T) -> Seq<V>, v: V)
    ensures
        each(items, f).contains(v) <==> exists|i: int| 0 <= i < items.len() && f(#[trigger] items[i]).contains(v),
    decreases items.len(),
{
    if items.len() > 0 {
        let front = items.drop_last();
        lemma_each_contains(front, f, v);
        lemma_concat_contains(each(front, f), f(items.last()), v);
        if each(front, f).contains(v) {
            let i = choose|i: int| 0 <= i < front.len() && f(#[trigger] front[i]).contains(v);
            assert(f(items[i]).contains(v));
        }
        if f(items.last()).contains(v) {
            assert(f(items[items.len() - 1]).contains(v));
        }
        if exists|i: int| 0 <= i < items.len() && f(#[trigger] items[i]).contains(v) {
            let i = choose|i: int| 0 <= i < items.len() && f(#[trigger] items[i]).contains(v);
            if i < front.len() {
                assert(f(front[i]).contains(v));
            }
        }
    }
}

/// The lists of the items hold nothing twice, if none of them does and no two of
/// them have anything in common.
pub proof fn lemma_each_once<T, V>(items: Seq<T>, f: spec_fn(T) -> Seq<V>)
    requires
        forall|i: int| 0 <= i < items.len() ==> f(#[trigger] items[i]).no_duplicates(),
        forall|i: int, j: int|
            0 <= i < j < items.len() ==> disjoint(f(#[trigger] items[i]), f(#[trigger] items[j])),
    ensures
        each(items, f).no_duplicates(),
    decreases items.len(),
{
    if items.len() > 0 {
        let front = items.drop_last();
        let last = items.len() - 1;
        assert forall|i: int| 0 <= i < front.len() implies f(#[trigger] front[i]).no_duplicates() by {
            assert(front[i] == items[i]);
        }
        assert forall|i: int, j: int| 0 <= i < j < front.len() implies disjoint(
            f(#[trigger] front[i]),
            f(#[trigger] front[j]),
        ) by {
            assert(front[i] == items[i] && front[j] == items[j]);
        }
        lemma_each_once(front, f);
        assert(items[last] == items.last());
        assert forall|v: V| !(#[trigger] each(front, f).contains(v) && f(items.last()).contains(v)) by {
            lemma_each_contains(front, f, v);
            if each(front, f).contains(v) {
                let i = choose|i: int| 0 <= i < front.len() && f(#[trigger] front[i]).contains(v);
                assert(disjoint(f(items[i]), f(items[last])));
                assert(f(items[i]).contains(v));
            }
        }
        lemma_concat_once(each(front, f), f(items.last()));
    }
}

/// Whether the list of a pair holds something.
pub open spec fn pair_has<V>(f: spec_fn(int, int) -> Seq<V>, i: int, j: int, v: V) -> bool {
    f(i, j).contains(v)
}

proof fn lemma_row_contains<V>(f: spec_fn(int, int) -> Seq<V>, i: int, j: int, v: V)
    ensures
        row(f, i, j).contains(v) <==> exists|k: int| i < k < j && #[trigger] pair_has(f, i, k, v),
    decreases j - i,
{
    if j > i + 1 {
        lemma_row_contains(f, i, j - 1, v);
        lemma_concat_contains(row(f, i, j - 1), f(i, j - 1), v);
        if f(i, j - 1).contains(v) {
            assert(pair_has(f, i, j - 1, v));
        }
    }
}

proof fn lemma_rows_contains<V>(f: spec_fn(int, int) -> Seq<V>, n: int, i: int, v: V)
    ensures
        rows(f, n, i).contains(v) <==> exists|k: int, l: int|
            0 <= k < i && k < l < n && #[trigger] pair_has(f, k, l, v),
    decreases i,
{
    if i > 0 {
        lemma_rows_contains(f, n, i - 1, v);
        lemma_row_contains(f, i - 1, n, v);
        lemma_concat_contains(rows(f, n, i - 1), row(f, i - 1, n), v);
    }
}

/// The lists of the pairs hold what one of them holds.
pub proof fn lemma_each_pair_contains<V>(f: spec_fn(int, int) -> Seq<V>, n: int, v: V)
    ensures
        each_pair(f, n).contains(v) <==> exists|i: int, j: int| 0 <= i < j < n && #[trigger] pair_has(f, i, j, v),
{
    lemma_rows_contains(f, n, n, v);
}

/// Whether the lists of the pairs below `n` hold nothing twice, and no two of them
/// have anything in common.
pub open spec fn pairs_differ<V>(f: spec_fn(int, int) -> Seq<V>, n: int) -> bool {
    &&& forall|i: int, j: int| 0 <= i < j < n ==> (#[trigger] f(i, j)).no_duplicates()
    &&& forall|i: int, j: int, k: int, l: int, v: V|
        0 <= i < j < n && 0 <= k < l < n && #[trigger] pair_has(f, i, j, v) && #[trigger] pair_has(f, k, l, v) ==> i == k
            && j == l
}

proof fn lemma_row_once<V>(f: spec_fn(int, int) -> Seq<V>, n: int, i: int, j: int)
    requires
        pairs_differ(f, n),
        0 <= i,
        j <= n,
    ensures
        row(f, i, j).no_duplicates(),
    decreases j - i,
{
    if j > i + 1 {
        lemma_row_once(f, n, i, j - 1);
        assert forall|v: V| !(#[trigger] row(f, i, j - 1).contains(v) && f(i, j - 1).contains(v)) by {
            lemma_row_contains(f, i, j - 1, v);
            if row(f, i, j - 1).contains(v) && f(i, j - 1).contains(v) {
                let k = choose|k: int| i < k < j - 1 && #[trigger] pair_has(f, i, k, v);
                assert(pair_has(f, i, j - 1, v));
            }
        }
        lemma_concat_once(row(f, i, j - 1), f(i, j - 1));
    }
}

proof fn lemma_rows_once<V>(f: spec_fn(int, int) -> Seq<V>, n: int, i: int)
    requires
        pairs_differ(f, n),
        i <= n,
    ensures
        rows(f, n, i).no_duplicates(),
    decreases i,
{
    if i > 0 {
        lemma_rows_once(f, n, i - 1);
        lemma_row_once(f, n, i - 1, n);
        assert forall|v: V| !(#[trigger] rows(f, n, i - 1).contains(v) && row(f, i - 1, n).contains(v)) by {
            lemma_rows_contains(f, n, i - 1, v);
            lemma_row_contains(f, i - 1, n, v);
            if rows(f, n, i - 1).contains(v) && row(f, i - 1, n).contains(v) {
                let (k, l) = choose|k: int, l: int| 0 <= k < i - 1 && k < l < n && #[trigger] pair_has(f, k, l, v);
                let m = choose|m: int| i - 1 < m < n && #[trigger] pair_has(f, i - 1, m, v);
                assert(k == i - 1);
            }
        }
        lemma_concat_once(rows(f, n, i - 1), row(f, i - 1, n));
    }
}

/// The lists of the pairs hold nothing twice, if none of them does and no two of
/// them have anything in common.
pub proof fn lemma_each_pair_once<V>(f: spec_fn(int, int) -> Seq<V>, n: int)
    requires
        pairs_differ(f, n),
    ensures
        each_pair(f, n).no_duplicates(),
{
    lemma_rows_once(f, n, n);
}

/// A list of at most one thing holds that thing, if it is there.
pub proof fn lemma_at_most_one<V>(present: bool, x: V, v: V)
    ensures
        (if present {
            seq![x]
        } else {
            Seq::empty()
        }).contains(v) <==> present && v == x,
{
    if present {
        assert(seq![x][0] == x);
    }
}

/// The lists of a set's members, taken in ascending order, hold what one of them
/// holds.
pub proof fn lemma_members_contain<V>(s: Set<u64>, f: spec_fn(u64) -> Seq<V>, v: V)
    requires
        s.finite(),
    ensures
        each(ordered::ascending(s), f).contains(v) <==> exists|x: u64| #[trigger] s.contains(x) && f(x).contains(v),
{
    let items = ordered::ascending(s);
    ordered::lemma_ascending(s);
    lemma_each_contains(items, f, v);
    if each(items, f).contains(v) {
        let i = choose|i: int| 0 <= i < items.len() && f(#[trigger] items[i]).contains(v);
        assert(items.contains(items[i]));
        assert(s.contains(items[i]));
    }
    if exists|x: u64| #[trigger] s.contains(x) && f(x).contains(v) {
        let x = choose|x: u64| #[trigger] s.contains(x) && f(x).contains(v);
        assert(items.contains(x));
        let i = choose|i: int| 0 <= i < items.len() && items[i] == x;
        assert(f(items[i]).contains(v));
    }
}

/// The lists of a set's members hold nothing twice, if none of them does and no
/// two of them have anything in common.
pub proof fn lemma_members_once<V>(s: Set<u64>, f: spec_fn(u64) -> Seq<V>)
    requires
        s.finite(),
        forall|x: u64| #[trigger] s.contains(x) ==> f(x).no_duplicates(),
        forall|x: u64, y: u64| #[trigger] s.contains(x) && #[trigger] s.contains(y) && x != y ==> disjoint(f(x), f(y)),
    ensures
        each(ordered::ascending(s), f).no_duplicates(),
{
    let items = ordered::ascending(s);
    ordered::lemma_ascending(s);
    assert forall|i: int| 0 <= i < items.len() implies f(#[trigger] items[i]).no_duplicates() by {
        assert(items.contains(items[i]));
        assert(s.contains(items[i]));
    }
    assert forall|i: int, j: int| 0 <= i < j < items.len() implies disjoint(
        f(#[trigger] items[i]),
        f(#[trigger] items[j]),
    ) by {
        assert(items.contains(items[i]) && items.contains(items[j]));
        assert(s.contains(items[i]) && s.contains(items[j]));
    }
    lemma_each_once(items, f);
}

/// Two members of a set have places in its ascending listing, the smaller one first.
pub proof fn lemma_places(s: Set<u64>, x: u64, y: u64) -> (places: (int, int))
    requires
        s.finite(),
        s.contains(x),
        s.contains(y),
        x < y,
    ensures
        0 <= places.0 < places.1 < ordered::ascending(s).len(),
        ordered::ascending(s)[places.0] == x,
        ordered::ascending(s)[places.1] == y,
{
    let items = ordered::ascending(s);
    ordered::lemma_ascending(s);
    assert(items.contains(x) && items.contains(y));
    let i = choose|i: int| 0 <= i < items.len() && items[i] == x;
    let j = choose|j: int| 0 <= j < items.len() && items[j] == y;
    (i, j)
}

/// Whether every item of a list stands before the items behind it, as `before` says.
pub open spec fn in_order<V>(s: Seq<V>, before: spec_fn(V, V) -> bool) -> bool {
    forall|p: int, q: int| 0 <= p < q < s.len() ==> before(#[trigger] s[p], #[trigger] s[q])
}

/// Whether every item of a list stands before every item of another.
pub open spec fn all_before<V>(a: Seq<V>, b: Seq<V>, before: spec_fn(V, V) -> bool) -> bool {
    forall|x: V, y: V| #[trigger] a.contains(x) && #[trigger] b.contains(y) ==> before(x, y)
}

/// Two lists in order, one before the other, make one in order.
pub proof fn lemma_concat_in_order<V>(a: Seq<V>, b: Seq<V>, before: spec_fn(V, V) -> bool)
    requires
        in_order(a, before),
        in_order(b, before),
        all_before(a, b, before),
    ensures
        in_order(a + b, before),
{
    let c = a + b;
    assert forall|p: int, q: int| 0 <= p < q < c.len() implies before(#[trigger] c[p], #[trigger] c[q]) by {
        if q < a.len() {
            assert(before(a[p], a[q]));
        } else if p >= a.len() {
            assert(before(b[p - a.len()], b[q - a.len()]));
        } else {
            assert(a.contains(a[p]) && b.contains(b[q - a.len()]));
        }
    }
}

/// The lists of the items are in order, if each of them is and each stands before the ones
/// of the items behind it.
pub proof fn lemma_each_in_order<T, V>(items: Seq<T>, f: spec_fn(T) -> Seq<V>, before: spec_fn(V, V) -> bool)
    requires
        forall|i: int| 0 <= i < items.len() ==> in_order(f(#[trigger] items[i]), before),
        forall|i: int, j: int|
            0 <= i < j < items.len() ==> all_before(f(#[trigger] items[i]), f(#[trigger] items[j]), before),
    ensures
        in_order(each(items, f), before),
    decreases items.len(),
{
    if items.len() > 0 {
        let front = items.drop_last();
        let last = items.len() - 1;
        assert forall|i: int| 0 <= i < front.len() implies in_order(f(#[trigger] front[i]), before) by {
            assert(front[i] == items[i]);
        }
        assert forall|i: int, j: int| 0 <= i < j < front.len() implies all_before(
            f(#[trigger] front[i]),
            f(#[trigger] front[j]),
            before,
        ) by {
            assert(front[i] == items[i] && front[j] == items[j]);
        }
        lemma_each_in_order(front, f, before);
        assert(items[last] == items.last());
        assert forall|x: V, y: V| #[trigger] each(front, f).contains(x) && #[trigger] f(items.last()).contains(
            y,
        ) implies before(x, y) by {
            lemma_each_contains(front, f, x);
            let i = choose|i: int| 0 <= i < front.len() && f(#[trigger] front[i]).contains(x);
            assert(all_before(f(items[i]), f(items[last]), before));
            assert(f(items[i]).contains(x));
        }
        lemma_concat_in_order(each(front, f), f(items.last()), before);
    }
}

/// The lists of a set's members are in order, if each of them is and each stands before
/// those of greater members.
pub proof fn lemma_members_in_order<V>(s: Set<u64>, f: spec_fn(u64) -> Seq<V>, before: spec_fn(V, V) -> bool)
    requires
        s.finite(),
        forall|x: u64| #[trigger] s.contains(x) ==> in_order(f(x), before),
        forall|x: u64, y: u64| #[trigger] s.contains(x) && #[trigger] s.contains(y) && x < y ==> all_before(f(x), f(y), before),
    ensures
        in_order(each(ordered::ascending(s), f), before),
{
    let items = ordered::ascending(s);
    ordered::lemma_ascending(s);
    assert forall|i: int| 0 <= i < items.len() implies in_order(f(#[trigger] items[i]), before) by {
        assert(items.contains(items[i]));
        assert(s.contains(items[i]));
    }
    assert forall|i: int, j: int| 0 <= i < j < items.len() implies all_before(
        f(#[trigger] items[i]),
        f(#[trigger] items[j]),
        before,
    ) by {
        assert(items.contains(items[i]) && items.contains(items[j]));
        assert(s.contains(items[i]) && s.contains(items[j]));
    }
    lemma_each_in_order(items, f, before);
}

/// Whether the lists of the pairs below `n` are in order, each by itself and each before
/// those of later pairs.
pub open spec fn pairs_in_order<V>(f: spec_fn(int, int) -> Seq<V>, n: int, before: spec_fn(V, V) -> bool) -> bool {
    &&& forall|i: int, j: int| 0 <= i < j < n ==> in_order(#[trigger] f(i, j), before)
    &&& forall|i: int, j: int, k: int, l: int, x: V, y: V|
        0 <= i < j < n && 0 <= k < l < n && (i < k || (i == k && j < l)) && #[trigger] pair_has(f, i, j, x)
            && #[trigger] pair_has(f, k, l, y) ==> before(x, y)
}

proof fn lemma_row_in_order<V>(f: spec_fn(int, int) -> Seq<V>, n: int, i: int, j: int, before: spec_fn(V, V) -> bool)
    requires
        pairs_in_order(f, n, before),
        0 <= i,
        j <= n,
    ensures
        in_order(row(f, i, j), before),
    decreases j - i,
{
    if j > i + 1 {
        lemma_row_in_order(f, n, i, j - 1, before);
        assert forall|x: V, y: V| #[trigger] row(f, i, j - 1).contains(x) && #[trigger] f(i, j - 1).contains(
            y,
        ) implies before(x, y) by {
            lemma_row_contains(f, i, j - 1, x);
            let k = choose|k: int| i < k < j - 1 && #[trigger] pair_has(f, i, k, x);
            assert(pair_has(f, i, j - 1, y));
        }
        lemma_concat_in_order(row(f, i, j - 1), f(i, j - 1), before);
    }
}

proof fn lemma_rows_in_order<V>(f: spec_fn(int, int) -> Seq<V>, n: int, i: int, before: spec_fn(V, V) -> bool)
    requires
        pairs_in_order(f, n, before),
        i <= n,
    ensures
        in_order(rows(f, n, i), before),
    decreases i,
{
    if i > 0 {
        lemma_rows_in_order(f, n, i - 1, before);
        lemma_row_in_order(f, n, i - 1, n, before);
        assert forall|x: V, y: V| #[trigger] rows(f, n, i - 1).contains(x) && #[trigger] row(f, i - 1, n).contains(
            y,
        ) implies before(x, y) by {
            lemma_rows_contains(f, n, i - 1, x);
            lemma_row_contains(f, i - 1, n, y);
            let (k, l) = choose|k: int, l: int| 0 <= k < i - 1 && k < l < n && #[trigger] pair_has(f, k, l, x);
            let m = choose|m: int| i - 1 < m < n && #[trigger] pair_has(f, i - 1, m, y);
        }
        lemma_concat_in_order(rows(f, n, i - 1), row(f, i - 1, n), before);
    }
}

/// The lists of the pairs are in order, if each of them is and each stands before those of
/// later pairs.
pub proof fn lemma_each_pair_in_order<V>(f: spec_fn(int, int) -> Seq<V>, n: int, before: spec_fn(V, V) -> bool)
    requires
        pairs_in_order(f, n, before),
    ensures
        in_order(each_pair(f, n), before),
{
    lemma_rows_in_order(f, n, n, before);
}

} // verus!

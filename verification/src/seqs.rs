//! Sequence vocabulary shared by the contracts: views of rows, first match,
//! sums, and the one sort that every listing goes through.
use vstd::prelude::*;
use vstd::seq_lib::*;

verus! {

/// The views of the elements of a sequence.
pub open spec fn views<T: View>(s: Seq<T>) -> Seq<T::V> {
    Seq::new(s.len(), |i: int| s[i]@)
}

/// The view of an optional value.
pub open spec fn opt_view<T: View>(o: Option<T>) -> Option<T::V> {
    match o {
        Some(t) => Some(t@),
        None => None,
    }
}

/// The view of what a call returned, where it succeeded.
pub open spec fn ok_view<T: View, E>(r: Result<T, E>) -> Result<T::V, E> {
    match r {
        Ok(t) => Ok(t@),
        Err(e) => Err(e),
    }
}

/// The first element that satisfies `p`.
pub open spec fn first<T>(s: Seq<T>, p: spec_fn(T) -> bool) -> Option<T>
    decreases s.len(),
{
    if s.len() == 0 {
        None
    } else if p(s[0]) {
        Some(s[0])
    } else {
        first(s.drop_first(), p)
    }
}

/// The sum of `f` over a sequence.
pub open spec fn sum<T>(s: Seq<T>, f: spec_fn(T) -> int) -> int
    decreases s.len(),
{
    if s.len() == 0 {
        0
    } else {
        sum(s.drop_last(), f) + f(s.last())
    }
}

/// No two elements have the same key.
pub open spec fn distinct<T, K>(s: Seq<T>, key: spec_fn(T) -> K) -> bool {
    forall|i: int, j: int|
        0 <= i < s.len() && 0 <= j < s.len() && i != j ==> key(#[trigger] s[i]) != key(
            #[trigger] s[j],
        )
}

/// `i` is the position of the first match.
pub proof fn lemma_first_at<T>(s: Seq<T>, p: spec_fn(T) -> bool, i: int)
    requires
        0 <= i < s.len(),
        p(s[i]),
        forall|j: int| 0 <= j < i ==> !p(#[trigger] s[j]),
    ensures
        first(s, p) == Some(s[i]),
    decreases s.len(),
{
    if i > 0 {
        assert(!p(s[0]));
        assert forall|j: int| 0 <= j < i - 1 implies !p(#[trigger] s.drop_first()[j]) by {
            assert(s.drop_first()[j] == s[j + 1]);
        }
        lemma_first_at(s.drop_first(), p, i - 1);
    }
}

/// Where nothing matches there is no first match.
pub proof fn lemma_first_none<T>(s: Seq<T>, p: spec_fn(T) -> bool)
    requires
        forall|j: int| 0 <= j < s.len() ==> !p(#[trigger] s[j]),
    ensures
        first(s, p) is None,
    decreases s.len(),
{
    if s.len() > 0 {
        assert(!p(s[0]));
        assert forall|j: int| 0 <= j < s.drop_first().len() implies !p(
            #[trigger] s.drop_first()[j],
        ) by {
            assert(s.drop_first()[j] == s[j + 1]);
        }
        lemma_first_none(s.drop_first(), p);
    }
}

/// A first match is an element, it satisfies the predicate, and its absence
/// means that no element does.
pub proof fn lemma_first<T>(s: Seq<T>, p: spec_fn(T) -> bool)
    ensures
        match first(s, p) {
            Some(x) => p(x) && exists|i: int|
                0 <= i < s.len() && #[trigger] s[i] == x && forall|j: int|
                    0 <= j < i ==> !p(#[trigger] s[j]),
            None => forall|j: int| 0 <= j < s.len() ==> !p(#[trigger] s[j]),
        },
    decreases s.len(),
{
    if exists|i: int| 0 <= i < s.len() && p(#[trigger] s[i]) {
        let i = choose|i: int| 0 <= i < s.len() && p(#[trigger] s[i]);
        lemma_least(s, p, i);
        let m = choose|m: int|
            0 <= m < s.len() && p(#[trigger] s[m]) && forall|j: int|
                0 <= j < m ==> !p(#[trigger] s[j]);
        lemma_first_at(s, p, m);
    } else {
        lemma_first_none(s, p);
    }
}

proof fn lemma_least<T>(s: Seq<T>, p: spec_fn(T) -> bool, i: int)
    requires
        0 <= i < s.len(),
        p(s[i]),
    ensures
        exists|m: int|
            0 <= m < s.len() && p(#[trigger] s[m]) && forall|j: int|
                0 <= j < m ==> !p(#[trigger] s[j]),
    decreases i,
{
    if exists|j: int| 0 <= j < i && p(#[trigger] s[j]) {
        let j = choose|j: int| 0 <= j < i && p(#[trigger] s[j]);
        lemma_least(s, p, j);
    } else {
        assert(p(s[i]));
    }
}

/// The views of a longer sequence.
pub proof fn lemma_views_push<T: View>(s: Seq<T>, x: T)
    ensures
        views(s.push(x)) == views(s).push(x@),
{
    assert(views(s.push(x)) =~= views(s).push(x@));
}

/// The views of a sequence with one element replaced.
pub proof fn lemma_views_update<T: View>(s: Seq<T>, i: int, x: T)
    requires
        0 <= i < s.len(),
    ensures
        views(s.update(i, x)) == views(s).update(i, x@),
{
    assert(views(s.update(i, x)) =~= views(s).update(i, x@));
}

/// One more element of a filtered prefix.
pub proof fn lemma_filter_step<T>(s: Seq<T>, p: spec_fn(T) -> bool, i: int)
    requires
        0 <= i < s.len(),
    ensures
        s.take(i + 1).filter(p) == if p(s[i]) {
            s.take(i).filter(p).push(s[i])
        } else {
            s.take(i).filter(p)
        },
{
    assert(s.take(i + 1) =~= s.take(i).push(s[i]));
    s.take(i).lemma_filter_push(s[i], p);
}

/// One more element of a partial sum.
pub proof fn lemma_sum_step<T>(s: Seq<T>, f: spec_fn(T) -> int, i: int)
    requires
        0 <= i < s.len(),
    ensures
        sum(s.take(i + 1), f) == sum(s.take(i), f) + f(s[i]),
{
    assert(s.take(i + 1).drop_last() =~= s.take(i));
}

/// A sum of values that are never negative is not negative, and no partial
/// sum exceeds it.
pub proof fn lemma_sum_prefix<T>(s: Seq<T>, f: spec_fn(T) -> int, i: int)
    requires
        0 <= i <= s.len(),
        forall|x: T| #[trigger] f(x) >= 0,
    ensures
        0 <= sum(s.take(i), f) <= sum(s, f),
    decreases s.len(),
{
    if s.len() == 0 {
        assert(s.take(i) =~= s);
    } else if i == s.len() {
        assert(s.take(i) =~= s);
        lemma_sum_prefix(s.drop_last(), f, s.len() - 1);
        assert(s.drop_last().take(s.len() - 1) =~= s.drop_last());
        assert(f(s.last()) >= 0);
    } else {
        lemma_sum_prefix(s.drop_last(), f, i);
        assert(s.drop_last().take(i) =~= s.take(i));
        assert(f(s.last()) >= 0);
    }
}

/// Two functions that agree on every element have the same sum.
pub proof fn lemma_sum_same<T>(s: Seq<T>, f: spec_fn(T) -> int, g: spec_fn(T) -> int)
    requires
        forall|i: int| 0 <= i < s.len() ==> f(#[trigger] s[i]) == g(s[i]),
    ensures
        sum(s, f) == sum(s, g),
    decreases s.len(),
{
    if s.len() > 0 {
        assert(f(s[s.len() - 1]) == g(s[s.len() - 1]));
        assert forall|i: int| 0 <= i < s.drop_last().len() implies f(
            #[trigger] s.drop_last()[i],
        ) == g(s.drop_last()[i]) by {
            assert(s.drop_last()[i] == s[i]);
        }
        lemma_sum_same(s.drop_last(), f, g);
    }
}

/// A sum of smaller values is smaller.
pub proof fn lemma_sum_leq<T>(s: Seq<T>, f: spec_fn(T) -> int, g: spec_fn(T) -> int)
    requires
        forall|x: T| #[trigger] f(x) <= g(x),
    ensures
        sum(s, f) <= sum(s, g),
    decreases s.len(),
{
    if s.len() > 0 {
        assert(f(s.last()) <= g(s.last()));
        lemma_sum_leq(s.drop_last(), f, g);
    }
}

/// The sum over the images of all elements.
pub proof fn lemma_sum_map<T, U>(
    s: Seq<T>,
    m: spec_fn(T) -> U,
    g: spec_fn(U) -> int,
    f: spec_fn(T) -> int,
)
    requires
        forall|x: T| #[trigger] f(x) == g(m(x)),
    ensures
        sum(s.map_values(m), g) == sum(s, f),
    decreases s.len(),
{
    if s.len() > 0 {
        lemma_sum_map(s.drop_last(), m, g, f);
        assert(s.map_values(m).drop_last() =~= s.drop_last().map_values(m));
        assert(f(s.last()) == g(m(s.last())));
    }
}

/// The sum over the images of the elements that pass a filter.
pub proof fn lemma_sum_filter_map<T, U>(
    s: Seq<T>,
    p: spec_fn(T) -> bool,
    m: spec_fn(T) -> U,
    g: spec_fn(U) -> int,
    f: spec_fn(T) -> int,
)
    requires
        forall|x: T| #[trigger]
            f(x) == if p(x) {
                g(m(x))
            } else {
                0
            },
    ensures
        sum(s.filter(p).map_values(m), g) == sum(s, f),
    decreases s.len(),
{
    reveal(Seq::filter);
    if s.len() > 0 {
        let rest = s.drop_last();
        lemma_sum_filter_map(rest, p, m, g, f);
        assert(f(s.last()) == if p(s.last()) {
            g(m(s.last()))
        } else {
            0
        });
        let kept = rest.filter(p);
        if p(s.last()) {
            assert(s.filter(p) == kept.push(s.last()));
            assert(s.filter(p).map_values(m) =~= kept.map_values(m).push(m(s.last())));
            assert(s.filter(p).map_values(m).drop_last() =~= kept.map_values(m));
        } else {
            assert(s.filter(p) == kept);
        }
    } else {
        assert(s.filter(p).map_values(m) =~= Seq::<U>::empty());
    }
}

/// The elements that pass a filter.
pub proof fn lemma_filter_contains<T>(s: Seq<T>, p: spec_fn(T) -> bool, x: T)
    ensures
        s.filter(p).contains(x) <==> s.contains(x) && p(x),
    decreases s.len(),
{
    reveal(Seq::filter);
    if s.len() > 0 {
        let rest = s.drop_last();
        lemma_filter_contains(rest, p, x);
        if s.contains(x) {
            let i = choose|i: int| 0 <= i < s.len() && s[i] == x;
            if i < rest.len() {
                assert(rest[i] == x);
            }
        }
        if rest.contains(x) {
            let i = choose|i: int| 0 <= i < rest.len() && rest[i] == x;
            assert(s[i] == x);
        }
        if p(s.last()) {
            let kept = rest.filter(p);
            assert(s.filter(p) == kept.push(s.last()));
            assert(kept.push(s.last())[kept.len() as int] == s.last());
            if kept.contains(x) {
                let i = choose|i: int| 0 <= i < kept.len() && kept[i] == x;
                assert(kept.push(s.last())[i] == x);
            }
            if kept.push(s.last()).contains(x) {
                let i = choose|i: int| 0 <= i < kept.len() + 1 && kept.push(s.last())[i] == x;
                if i < kept.len() {
                    assert(kept[i] == x);
                } else {
                    assert(s[s.len() - 1] == x);
                }
            }
        }
    }
}

/// A sum of sums can be taken in two parts.
pub proof fn lemma_sum_add<T>(
    s: Seq<T>,
    f: spec_fn(T) -> int,
    g: spec_fn(T) -> int,
    h: spec_fn(T) -> int,
)
    requires
        forall|x: T| #[trigger] h(x) == f(x) + g(x),
    ensures
        sum(s, h) == sum(s, f) + sum(s, g),
    decreases s.len(),
{
    if s.len() > 0 {
        assert(h(s.last()) == f(s.last()) + g(s.last()));
        lemma_sum_add(s.drop_last(), f, g, h);
    }
}

/// What one element adds over all elements of another list.
pub open spec fn row_sum<A, B>(b: Seq<B>, f: spec_fn(A, B) -> int) -> spec_fn(A) -> int {
    |x: A| sum(b, |y: B| f(x, y))
}

pub open spec fn column_sum<A, B>(a: Seq<A>, f: spec_fn(A, B) -> int) -> spec_fn(B) -> int {
    |y: B| sum(a, |x: A| f(x, y))
}

/// A table can be summed by rows or by columns.
pub proof fn lemma_sum_exchange<A, B>(a: Seq<A>, b: Seq<B>, f: spec_fn(A, B) -> int)
    ensures
        sum(a, row_sum(b, f)) == sum(b, column_sum(a, f)),
    decreases b.len(),
{
    if b.len() == 0 {
        lemma_sum_zero(a, row_sum(b, f));
    } else {
        let rest = b.drop_last();
        let y = b.last();
        lemma_sum_exchange(a, rest, f);
        lemma_sum_add(a, row_sum(rest, f), |x: A| f(x, y), row_sum(b, f));
    }
}

/// A sum of zeros.
pub proof fn lemma_sum_zero<T>(s: Seq<T>, f: spec_fn(T) -> int)
    requires
        forall|i: int| 0 <= i < s.len() ==> f(#[trigger] s[i]) == 0,
    ensures
        sum(s, f) == 0,
    decreases s.len(),
{
    if s.len() > 0 {
        assert(f(s[s.len() - 1]) == 0);
        assert forall|i: int| 0 <= i < s.drop_last().len() implies f(#[trigger] s.drop_last()[i])
            == 0 by {
            assert(s.drop_last()[i] == s[i]);
        }
        lemma_sum_zero(s.drop_last(), f);
    }
}

/// A sum to which only one element adds.
pub proof fn lemma_sum_single<T>(s: Seq<T>, f: spec_fn(T) -> int, i: int)
    requires
        0 <= i < s.len(),
        forall|j: int| 0 <= j < s.len() && j != i ==> f(#[trigger] s[j]) == 0,
    ensures
        sum(s, f) == f(s[i]),
{
    lemma_sum_remove(s, f, i);
    let rest = s.remove(i);
    assert forall|j: int| 0 <= j < rest.len() implies f(#[trigger] rest[j]) == 0 by {
        if j < i {
            assert(rest[j] == s[j]);
        } else {
            assert(rest[j] == s[j + 1]);
        }
    }
    lemma_sum_zero(rest, f);
}

/// Removing one element takes its value out of a sum.
proof fn lemma_sum_remove<T>(s: Seq<T>, f: spec_fn(T) -> int, i: int)
    requires
        0 <= i < s.len(),
    ensures
        sum(s, f) == sum(s.remove(i), f) + f(s[i]),
    decreases s.len(),
{
    if i == s.len() - 1 {
        assert(s.remove(i) =~= s.drop_last());
    } else {
        lemma_sum_remove(s.drop_last(), f, i);
        assert(s.remove(i).drop_last() =~= s.drop_last().remove(i));
        assert(s.remove(i).last() == s.last());
    }
}

/// The order of the elements does not matter for a sum.
pub proof fn lemma_sum_permuted<T>(a: Seq<T>, b: Seq<T>, f: spec_fn(T) -> int)
    requires
        a.to_multiset() == b.to_multiset(),
    ensures
        sum(a, f) == sum(b, f),
    decreases a.len(),
{
    broadcast use group_to_multiset_ensures;

    to_multiset_len(a);
    to_multiset_len(b);
    if a.len() > 0 {
        let x = a.last();
        assert(a.contains(x));
        assert(b.to_multiset().count(x) > 0);
        assert(b.contains(x));
        let i = choose|i: int| 0 <= i < b.len() && b[i] == x;
        to_multiset_remove(b, i);
        to_multiset_remove(a, a.len() - 1);
        assert(a.remove(a.len() - 1) =~= a.drop_last());
        lemma_sum_permuted(a.drop_last(), b.remove(i), f);
        lemma_sum_remove(b, f, i);
    }
}

/// The order of the elements does not matter for what a list holds.
pub proof fn lemma_permuted_contains<T>(a: Seq<T>, b: Seq<T>, x: T)
    requires
        a.to_multiset() == b.to_multiset(),
    ensures
        a.contains(x) == b.contains(x),
        a.len() == b.len(),
{
    broadcast use group_to_multiset_ensures;

    to_multiset_len(a);
    to_multiset_len(b);
    assert(a.contains(x) == (a.to_multiset().count(x) > 0));
    assert(b.contains(x) == (b.to_multiset().count(x) > 0));
}

/// Keys that are distinct stay so when a list is put in another order.
pub proof fn lemma_distinct_permuted<T, K>(a: Seq<T>, b: Seq<T>, key: spec_fn(T) -> K)
    requires
        a.to_multiset() == b.to_multiset(),
        distinct(a, key),
    ensures
        distinct(b, key),
{
    broadcast use group_to_multiset_ensures;

    assert forall|i: int, j: int|
        0 <= i < b.len() && 0 <= j < b.len() && i != j implies key(#[trigger] b[i]) != key(
        #[trigger] b[j],
    ) by {
        if key(b[i]) == key(b[j]) {
            let x = b[i];
            lemma_permuted_contains(a, b, x);
            lemma_permuted_contains(a, b, b[j]);
            assert(b.contains(x) && b.contains(b[j]));
            let m = choose|m: int| 0 <= m < a.len() && a[m] == x;
            let n = choose|n: int| 0 <= n < a.len() && a[n] == b[j];
            assert(m == n);
            let lo = if i < j { i } else { j };
            let hi = if i < j { j } else { i };
            to_multiset_remove(b, hi);
            to_multiset_remove(a, m);
            assert(b.remove(hi)[lo] == x);
            assert(b.remove(hi).contains(x));
            lemma_permuted_contains(a.remove(m), b.remove(hi), x);
            let l = choose|l: int| 0 <= l < a.remove(m).len() && a.remove(m)[l] == x;
            if l < m {
                assert(a[l] == x);
            } else {
                assert(a[l + 1] == x);
            }
        }
    }
}

/// Rows that can be put in order: a total preorder on their views.
pub trait Ordered: View + Sized {
    spec fn leq(a: Self::V, b: Self::V) -> bool;

    proof fn leq_total(a: Self::V, b: Self::V)
        ensures
            Self::leq(a, b) || Self::leq(b, a),
    ;

    proof fn leq_transitive(a: Self::V, b: Self::V, c: Self::V)
        requires
            Self::leq(a, b),
            Self::leq(b, c),
        ensures
            Self::leq(a, c),
    ;

    fn le(&self, other: &Self) -> (b: bool)
        ensures
            b == Self::leq(self@, other@),
    ;
}

/// Every element stands before those it does not exceed.
pub open spec fn ordered<T: Ordered>(s: Seq<T::V>) -> bool {
    forall|i: int, j: int| 0 <= i < j < s.len() ==> T::leq(#[trigger] s[i], #[trigger] s[j])
}

/// `out` lists exactly the elements of `s`, in order. Elements of equal rank
/// may stand either way round.
pub open spec fn sorted_copy<T: Ordered>(out: Seq<T::V>, s: Seq<T::V>) -> bool {
    &&& out.to_multiset() == s.to_multiset()
    &&& ordered::<T>(out)
}

/// Puts rows in order.
pub fn sort<T: Ordered>(rows: Vec<T>) -> (out: Vec<T>)
    ensures
        sorted_copy::<T>(views(out@), views(rows@)),
{
    broadcast use group_to_multiset_ensures;

    let ghost all = rows@;
    let mut out: Vec<T> = Vec::new();
    proof {
        assert(views(out@) =~= Seq::<T::V>::empty());
        assert(views(all.take(0)) =~= Seq::<T::V>::empty());
    }
    for x in it: rows
        invariant
            it.seq() == all,
            views(out@).to_multiset() == views(all.take(it.index() as int)).to_multiset(),
            ordered::<T>(views(out@)),
    {
        proof {
            let i = it.index() as int;
            assert(all.take(i + 1) =~= all.take(i).push(x));
            lemma_views_push(all.take(i), x);
            to_multiset_build(views(all.take(i)), x@);
        }
        place(&mut out, x);
    }
    assert(all.take(all.len() as int) =~= all);
    out
}

/// Puts one row into an ordered list, after the rows of equal rank.
fn place<T: Ordered>(out: &mut Vec<T>, x: T)
    requires
        ordered::<T>(views(old(out)@)),
    ensures
        views(final(out)@).to_multiset() == views(old(out)@).to_multiset().insert(x@),
        ordered::<T>(views(final(out)@)),
{
    let ghost before = out@;
    let mut at: usize = out.len();
    while at > 0 && !out[at - 1].le(&x)
        invariant
            at <= out.len(),
            out@ == before,
            ordered::<T>(views(before)),
            forall|j: int| at <= j < before.len() ==> T::leq(x@, #[trigger] views(before)[j]),
        decreases at,
    {
        proof {
            T::leq_total(views(before)[at - 1], x@);
        }
        at = at - 1;
    }
    let ghost v = x@;
    proof {
        if at > 0 {
            assert(T::leq(views(before)[at - 1], v));
        }
    }
    out.insert(at, x);
    proof {
        let old_v = views(before);
        assert(views(out@) =~= old_v.insert(at as int, v));
        to_multiset_insert(old_v, at as int, v);
        let new_v = views(out@);
        assert forall|i: int, j: int| 0 <= i < j < new_v.len() implies T::leq(
            #[trigger] new_v[i],
            #[trigger] new_v[j],
        ) by {
            if i < at && j == at {
                if i < at - 1 {
                    T::leq_transitive(old_v[i], old_v[at - 1], v);
                }
            } else if i < at && j > at {
                assert(T::leq(old_v[i], old_v[j - 1]));
            } else if i == at {
                assert(T::leq(v, old_v[j - 1]));
            } else if i > at {
                assert(T::leq(old_v[i - 1], old_v[j - 1]));
            } else {
                assert(T::leq(old_v[i], old_v[j]));
            }
        }
    }
}

} // verus!

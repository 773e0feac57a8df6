//! Stable insertion sort, as a specification: the order in which the
//! catalogs keep their files and functions.
use vstd::prelude::*;

verus! {

/// Where `x` goes among the first `j` elements of `sorted`: after every
/// element it is not less than.
pub open spec fn insert_pos_by<T>(sorted: Seq<T>, x: T, lt: spec_fn(T, T) -> bool, j: int) -> int
    decreases j,
{
    if j > 0 && j <= sorted.len() && lt(x, sorted[j - 1]) {
        insert_pos_by(sorted, x, lt, j - 1)
    } else {
        j
    }
}

/// `s` sorted by `lt`, elements that are not less than each other keeping
/// their order.
pub open spec fn isort<T>(s: Seq<T>, lt: spec_fn(T, T) -> bool) -> Seq<T>
    decreases s.len(),
{
    if s.len() == 0 {
        seq![]
    } else {
        let t = isort(s.drop_last(), lt);
        t.insert(insert_pos_by(t, s.last(), lt, t.len() as int), s.last())
    }
}

pub proof fn lemma_insert_pos_by_bounds<T>(sorted: Seq<T>, x: T, lt: spec_fn(T, T) -> bool, j: int)
    requires
        0 <= j <= sorted.len(),
    ensures
        0 <= insert_pos_by(sorted, x, lt, j) <= j,
    decreases j,
{
    if j > 0 && lt(x, sorted[j - 1]) {
        lemma_insert_pos_by_bounds(sorted, x, lt, j - 1);
    }
}

pub proof fn lemma_isort_len<T>(s: Seq<T>, lt: spec_fn(T, T) -> bool)
    ensures
        isort(s, lt).len() == s.len(),
    decreases s.len(),
{
    if s.len() > 0 {
        lemma_isort_len(s.drop_last(), lt);
        let t = isort(s.drop_last(), lt);
        lemma_insert_pos_by_bounds(t, s.last(), lt, t.len() as int);
    }
}

/// One more element sorted in: the step from `isort(s.take(k))` to
/// `isort(s.take(k + 1))`.
pub proof fn lemma_isort_step<T>(s: Seq<T>, lt: spec_fn(T, T) -> bool, k: int)
    requires
        0 <= k < s.len(),
    ensures
        isort(s.take(k + 1), lt) == isort(s.take(k), lt).insert(
            insert_pos_by(isort(s.take(k), lt), s[k], lt, isort(s.take(k), lt).len() as int),
            s[k],
        ),
{
    assert(s.take(k + 1).drop_last() =~= s.take(k));
    assert(s.take(k + 1).last() == s[k]);
}

/// `lt` is a strict weak order: never `a < a`, `<` is transitive, and so is
/// "not less than".
pub open spec fn strict_weak_order<T>(lt: spec_fn(T, T) -> bool) -> bool {
    &&& forall|a: T| !(#[trigger] lt(a, a))
    &&& forall|a: T, b: T, c: T| #[trigger] lt(a, b) && #[trigger] lt(b, c) ==> lt(a, c)
    &&& forall|a: T, b: T, c: T| !(#[trigger] lt(a, b)) && !(#[trigger] lt(b, c)) ==> !lt(a, c)
}

/// No element of `s` is less than one before it.
pub open spec fn sorted_by<T>(s: Seq<T>, lt: spec_fn(T, T) -> bool) -> bool {
    forall|i: int, j: int| 0 <= i < j < s.len() ==> !lt(#[trigger] s[j], #[trigger] s[i])
}

pub proof fn lemma_insert_pos_by_facts<T>(t: Seq<T>, x: T, lt: spec_fn(T, T) -> bool, j: int)
    requires
        0 <= j <= t.len(),
    ensures
        0 <= insert_pos_by(t, x, lt, j) <= j,
        forall|m: int| insert_pos_by(t, x, lt, j) <= m < j ==> lt(x, #[trigger] t[m]),
        insert_pos_by(t, x, lt, j) > 0 ==> !lt(x, t[insert_pos_by(t, x, lt, j) - 1]),
    decreases j,
{
    if j > 0 && lt(x, t[j - 1]) {
        lemma_insert_pos_by_facts(t, x, lt, j - 1);
    }
}

proof fn lemma_sorted_insert_by<T>(t: Seq<T>, x: T, lt: spec_fn(T, T) -> bool)
    requires
        strict_weak_order(lt),
        sorted_by(t, lt),
    ensures
        sorted_by(t.insert(insert_pos_by(t, x, lt, t.len() as int), x), lt),
{
    let p = insert_pos_by(t, x, lt, t.len() as int);
    lemma_insert_pos_by_facts(t, x, lt, t.len() as int);
    let u = t.insert(p, x);
    assert forall|i: int, j: int| 0 <= i < j < u.len() implies !lt(
        #[trigger] u[j],
        #[trigger] u[i],
    ) by {
        if j == p {
            // x is not less than t[p - 1], which is not less than t[i].
            assert(u[i] == t[i]);
            assert(!lt(x, t[p - 1]));
            if i < p - 1 {
                assert(!lt(t[p - 1], t[i]));
            }
        } else if i == p {
            // x is less than t[j - 1], so t[j - 1] is not less than x.
            assert(u[j] == t[j - 1]);
            assert(lt(x, t[j - 1]));
            if lt(t[j - 1], x) {
                assert(lt(x, x));
            }
        } else {
            let i0 = if i < p {
                i
            } else {
                i - 1
            };
            let j0 = if j < p {
                j
            } else {
                j - 1
            };
            assert(u[i] == t[i0] && u[j] == t[j0] && i0 < j0);
        }
    }
}

/// Insertion sort by a strict weak order gives a sorted sequence.
pub proof fn lemma_isort_sorted<T>(s: Seq<T>, lt: spec_fn(T, T) -> bool)
    requires
        strict_weak_order(lt),
    ensures
        sorted_by(isort(s, lt), lt),
    decreases s.len(),
{
    if s.len() > 0 {
        lemma_isort_sorted(s.drop_last(), lt);
        lemma_sorted_insert_by(isort(s.drop_last(), lt), s.last(), lt);
    }
}

/// Insertion sort keeps every element, as often as it occurs.
pub proof fn lemma_isort_permutation<T>(s: Seq<T>, lt: spec_fn(T, T) -> bool)
    ensures
        isort(s, lt).to_multiset() == s.to_multiset(),
    decreases s.len(),
{
    if s.len() > 0 {
        lemma_isort_permutation(s.drop_last(), lt);
        let t = isort(s.drop_last(), lt);
        lemma_insert_pos_by_bounds(t, s.last(), lt, t.len() as int);
        let p = insert_pos_by(t, s.last(), lt, t.len() as int);
        vstd::seq_lib::to_multiset_insert(t, p, s.last());
        vstd::seq_lib::to_multiset_build(s.drop_last(), s.last());
        assert(s.drop_last().push(s.last()) =~= s);
    } else {
        assert(isort(s, lt) =~= s);
    }
}

} // verus!

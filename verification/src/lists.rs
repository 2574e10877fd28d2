//! Facts about sequences: the first element of a kind, and filtering.

use vstd::prelude::*;

verus! {

/// The index of the first element of `s` that `p` holds of, or the length of `s`.
pub open spec fn first_where<A>(s: Seq<A>, p: spec_fn(A) -> bool) -> int
    decreases s.len(),
{
    if s.len() == 0 || p(s[0]) {
        0
    } else {
        1 + first_where(s.skip(1), p)
    }
}

/// `p` holds of the first element that it holds of, and of none before it.
pub proof fn lemma_first_where<A>(s: Seq<A>, p: spec_fn(A) -> bool)
    ensures
        0 <= first_where(s, p) <= s.len(),
        forall|j: int| 0 <= j < first_where(s, p) ==> !p(#[trigger] s[j]),
        first_where(s, p) < s.len() ==> p(s[first_where(s, p)]),
    decreases s.len(),
{
    if s.len() > 0 && !p(s[0]) {
        lemma_first_where(s.skip(1), p);
        assert forall|j: int| 0 <= j < first_where(s, p) implies !p(#[trigger] s[j]) by {
            if j > 0 {
                assert(s[j] == s.skip(1)[j - 1]);
            }
        }
    }
}

/// An element that `p` holds of, with none before it, is the first.
pub proof fn lemma_first_where_is<A>(s: Seq<A>, p: spec_fn(A) -> bool, i: int)
    requires
        0 <= i <= s.len(),
        forall|j: int| 0 <= j < i ==> !p(#[trigger] s[j]),
        i < s.len() ==> p(s[i]),
    ensures
        first_where(s, p) == i,
{
    lemma_first_where(s, p);
    let f = first_where(s, p);
    if f < i {
        assert(!p(s[f]));
    } else if i < f {
        assert(!p(s[i]));
    }
}

/// Filtering the first `i + 1` elements appends the last of them where it is kept.
pub proof fn lemma_filter_step<A>(all: Seq<A>, keep: spec_fn(A) -> bool, i: int)
    requires
        0 <= i < all.len(),
    ensures
        all.take(i + 1).filter(keep) == if keep(all[i]) {
            all.take(i).filter(keep).push(all[i])
        } else {
            all.take(i).filter(keep)
        },
{
    assert(all.take(i + 1).drop_last() =~= all.take(i));
    reveal(Seq::filter);
}

/// Filtering none of the elements gives none; filtering as many as there are, all.
pub proof fn lemma_filter_ends<A>(all: Seq<A>, keep: spec_fn(A) -> bool)
    ensures
        all.take(0).filter(keep) == Seq::<A>::empty(),
        all.take(all.len() as int) == all,
{
    reveal(Seq::filter);
    assert(all.take(0) =~= Seq::<A>::empty());
    assert(all.take(all.len() as int) =~= all);
}

/// The filtered sequence contains the kept elements and no others.
pub proof fn lemma_filter_members<A>(all: Seq<A>, keep: spec_fn(A) -> bool, x: A)
    ensures
        all.filter(keep).contains(x) == (all.contains(x) && keep(x)),
    decreases all.len(),
{
    reveal(Seq::filter);
    if all.len() > 0 {
        let rest = all.drop_last();
        lemma_filter_members(rest, keep, x);
        let kept = all.filter(keep);
        let fewer = rest.filter(keep);
        assert(all =~= rest.push(all.last()));
        assert(all.contains(x) == (rest.contains(x) || all.last() == x)) by {
            if rest.contains(x) {
                let j = choose|j: int| 0 <= j < rest.len() && rest[j] == x;
                assert(all[j] == x);
            }
            if all.contains(x) && all.last() != x {
                let j = choose|j: int| 0 <= j < all.len() && all[j] == x;
                assert(rest[j] == x);
            }
        }
        if keep(all.last()) {
            assert(kept == fewer.push(all.last()));
            if fewer.contains(x) {
                let j = choose|j: int| 0 <= j < fewer.len() && fewer[j] == x;
                assert(kept[j] == x);
            }
            if all.last() == x {
                assert(kept[fewer.len() as int] == x);
            }
            if kept.contains(x) && x != all.last() {
                let j = choose|j: int| 0 <= j < kept.len() && kept[j] == x;
                assert(fewer[j] == x);
            }
        }
    }
}

/// A list with one more element holds that element and what it held before.
pub proof fn lemma_push_contains<A>(s: Seq<A>, x: A, y: A)
    ensures
        s.push(x).contains(y) == (s.contains(y) || y == x),
{
    if s.contains(y) {
        assert(s.push(x)[s.index_of(y)] == y);
    }
    assert(s.push(x)[s.len() as int] == x);
    if s.push(x).contains(y) && y != x {
        let i = s.push(x).index_of(y);
        assert(s[i] == y);
    }
}

/// Two lists, one behind the other, hold what either holds.
pub proof fn lemma_append_contains<A>(s: Seq<A>, t: Seq<A>, x: A)
    ensures
        (s + t).contains(x) == (s.contains(x) || t.contains(x)),
{
    if s.contains(x) {
        assert((s + t)[s.index_of(x)] == x);
    }
    if t.contains(x) {
        assert((s + t)[s.len() + t.index_of(x)] == x);
    }
    if (s + t).contains(x) {
        let i = (s + t).index_of(x);
        if i < s.len() {
            assert(s[i] == x);
        } else {
            assert(t[i - s.len()] == x);
        }
    }
}

/// A filtered sequence has as many elements as there are indices of kept ones.
pub proof fn lemma_filter_counts<A>(all: Seq<A>, keep: spec_fn(A) -> bool)
    ensures
        Set::new(|i: int| 0 <= i < all.len() && keep(all[i])).finite(),
        Set::new(|i: int| 0 <= i < all.len() && keep(all[i])).len() == all.filter(keep).len(),
    decreases all.len(),
{
    reveal(Seq::filter);
    let here = Set::new(|i: int| 0 <= i < all.len() && keep(all[i]));
    if all.len() == 0 {
        assert(here =~= Set::<int>::empty());
    } else {
        let rest = all.drop_last();
        let n = all.len() - 1;
        lemma_filter_counts(rest, keep);
        let before = Set::new(|i: int| 0 <= i < rest.len() && keep(rest[i]));
        if keep(all.last()) {
            assert(here =~= before.insert(n));
        } else {
            assert(here =~= before);
        }
    }
}

} // verus!

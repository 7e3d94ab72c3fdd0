//! First-match lookup over a sequence.
//!
//! Every table of the model is searched the same way: walk the rows in
//! order and take the first one a predicate accepts.  `first_where` is the
//! specification of that walk; the lemmas let an executable scan establish
//! it index by index.

use vstd::prelude::*;

verus! {

/// The first element of `s` that satisfies `p`, if any.
pub open spec fn first_where<T>(s: Seq<T>, p: spec_fn(T) -> bool) -> Option<T>
    decreases s.len(),
{
    if s.len() == 0 {
        None
    } else if p(s[0]) {
        Some(s[0])
    } else {
        first_where(s.drop_first(), p)
    }
}

/// One step of a scan: the first match beyond `i` is `s[i]` if `p`
/// accepts it, else the first match beyond `i + 1`.
pub proof fn lemma_first_where_step<T>(s: Seq<T>, p: spec_fn(T) -> bool, i: int)
    requires
        0 <= i < s.len(),
    ensures
        first_where(s.skip(i), p) == if p(s[i]) {
            Some(s[i])
        } else {
            first_where(s.skip(i + 1), p)
        },
{
    let t = s.skip(i);
    assert(t.len() > 0);
    assert(t[0] == s[i]);
    assert(t.drop_first() =~= s.skip(i + 1));
}

/// Scanning past the end finds nothing.
pub proof fn lemma_first_where_end<T>(s: Seq<T>, p: spec_fn(T) -> bool)
    ensures
        first_where(s.skip(s.len() as int), p) == None::<T>,
{
    assert(s.skip(s.len() as int) =~= Seq::<T>::empty());
}

/// A scan of the whole sequence starts at index zero.
pub proof fn lemma_first_where_all<T>(s: Seq<T>, p: spec_fn(T) -> bool)
    ensures
        first_where(s.skip(0), p) == first_where(s, p),
{
    assert(s.skip(0) =~= s);
}

/// Appending a row never changes an earlier first match.
pub proof fn lemma_first_where_push<T>(s: Seq<T>, p: spec_fn(T) -> bool, x: T)
    ensures
        first_where(s.push(x), p) == match first_where(s, p) {
            Some(y) => Some(y),
            None => if p(x) {
                Some(x)
            } else {
                None
            },
        },
    decreases s.len(),
{
    let t = s.push(x);
    if s.len() == 0 {
        assert(t[0] == x);
        assert(t.drop_first() =~= Seq::<T>::empty());
    } else {
        assert(t[0] == s[0]);
        assert(t.drop_first() =~= s.drop_first().push(x));
        lemma_first_where_push(s.drop_first(), p, x);
        if p(s[0]) {
            assert(first_where(t, p) == Some(s[0]));
            assert(first_where(s, p) == Some(s[0]));
        } else {
            assert(first_where(t, p) == first_where(s.drop_first().push(x), p));
            assert(first_where(s, p) == first_where(s.drop_first(), p));
        }
    }
}

/// Whatever `first_where` returns satisfies the predicate and occurs in
/// the sequence; `None` means nothing satisfies it.
pub proof fn lemma_first_where_found<T>(s: Seq<T>, p: spec_fn(T) -> bool)
    ensures
        match first_where(s, p) {
            Some(x) => p(x) && s.contains(x),
            None => forall|i: int| 0 <= i < s.len() ==> !p(#[trigger] s[i]),
        },
    decreases s.len(),
{
    if s.len() == 0 {
    } else if p(s[0]) {
        assert(s.contains(s[0])) by {
            assert(s.index(0) == s[0]);
        }
    } else {
        let t = s.drop_first();
        lemma_first_where_found(t, p);
        match first_where(t, p) {
            Some(x) => {
                let j = choose|j: int| 0 <= j < t.len() && t.index(j) == x;
                assert(s.index(j + 1) == x);
            },
            None => {
                assert forall|i: int| 0 <= i < s.len() implies !p(#[trigger] s[i]) by {
                    if i > 0 {
                        assert(t.index(i - 1) == s[i]);
                        assert(!p(t.index(i - 1)));
                    }
                }
            },
        }
    }
}

/// If exactly one element satisfies `p`, the first match is that one.
pub proof fn lemma_first_where_at_unique<T>(s: Seq<T>, p: spec_fn(T) -> bool, k: int)
    requires
        0 <= k < s.len(),
        p(s[k]),
        forall|m: int| 0 <= m < s.len() && m != k ==> !p(#[trigger] s[m]),
    ensures
        first_where(s, p) == Some(s[k]),
{
    lemma_first_where_found(s, p);
    match first_where(s, p) {
        Some(x) => {
            let m = choose|m: int| 0 <= m < s.len() && s.index(m) == x;
            assert(m == k);
        },
        None => {
            assert(!p(s[k]));
        },
    }
}

/// One step of a filtering rebuild: filtering after a push appends the
/// new element exactly when it matches.
pub proof fn lemma_filter_push<T>(s: Seq<T>, p: spec_fn(T) -> bool, x: T)
    ensures
        s.push(x).filter(p) == if p(x) {
            s.filter(p).push(x)
        } else {
            s.filter(p)
        },
{
    reveal(Seq::filter);
    assert(s.push(x).drop_last() =~= s);
    assert(s.push(x).last() == x);
}

/// Every element of a filtered sequence occurs in the original.
pub proof fn lemma_filter_elements<T>(s: Seq<T>, p: spec_fn(T) -> bool)
    ensures
        forall|i: int| 0 <= i < s.filter(p).len() ==> s.contains(#[trigger] s.filter(p)[i]),
    decreases s.len(),
{
    reveal(Seq::filter);
    if s.len() > 0 {
        let t = s.drop_last();
        lemma_filter_elements(t, p);
        assert forall|i: int| 0 <= i < s.filter(p).len() implies s.contains(
            #[trigger] s.filter(p)[i],
        ) by {
            if i < t.filter(p).len() {
                assert(t.contains(t.filter(p)[i]));
                let m = choose|m: int| 0 <= m < t.len() && t.index(m) == t.filter(p)[i];
                assert(s.index(m) == s.filter(p)[i]);
            } else {
                assert(s.filter(p)[i] == s.last());
                assert(s.index(s.len() - 1) == s.last());
            }
        }
    }
}

/// A strict pairwise order over every two elements survives filtering.
pub proof fn lemma_filter_preserves_pairwise<T>(
    s: Seq<T>,
    p: spec_fn(T) -> bool,
    rel: spec_fn(T, T) -> bool,
)
    requires
        forall|i: int, j: int| 0 <= i < j < s.len() ==> rel(#[trigger] s[i], #[trigger] s[j]),
    ensures
        forall|i: int, j: int|
            0 <= i < j < s.filter(p).len() ==> rel(
                #[trigger] s.filter(p)[i],
                #[trigger] s.filter(p)[j],
            ),
    decreases s.len(),
{
    reveal(Seq::filter);
    if s.len() > 0 {
        let t = s.drop_last();
        assert(forall|i: int| 0 <= i < t.len() ==> t[i] == #[trigger] s[i]);
        lemma_filter_preserves_pairwise(t, p, rel);
        lemma_filter_elements(t, p);
        assert forall|i: int, j: int| 0 <= i < j < s.filter(p).len() implies rel(
            #[trigger] s.filter(p)[i],
            #[trigger] s.filter(p)[j],
        ) by {
            if j < t.filter(p).len() {
                assert(rel(t.filter(p)[i], t.filter(p)[j]));
            } else {
                assert(s.filter(p)[j] == s.last());
                assert(t.contains(t.filter(p)[i]));
                let m = choose|m: int| 0 <= m < t.len() && t.index(m) == t.filter(p)[i];
                assert(rel(s[m], s[s.len() - 1]));
            }
        }
    }
}

/// Filtering two equally long sequences by pointwise-equivalent
/// predicates keeps them aligned: the `k`-th survivors of each side come
/// from one and the same original index.
pub proof fn lemma_filter_parallel<A, B>(
    s: Seq<A>,
    t: Seq<B>,
    pa: spec_fn(A) -> bool,
    pb: spec_fn(B) -> bool,
)
    requires
        s.len() == t.len(),
        forall|k: int| 0 <= k < s.len() ==> pa(#[trigger] s[k]) == pb(#[trigger] t[k]),
    ensures
        s.filter(pa).len() == t.filter(pb).len(),
        forall|k: int|
            0 <= k < s.filter(pa).len() ==> exists|m: int|
                0 <= m < s.len() && #[trigger] s.filter(pa)[k] == s[m] && t.filter(pb)[k] == t[m],
    decreases s.len(),
{
    reveal(Seq::filter);
    if s.len() > 0 {
        let s1 = s.drop_last();
        let t1 = t.drop_last();
        assert(forall|k: int| 0 <= k < s1.len() ==> s1[k] == #[trigger] s[k]);
        assert(forall|k: int| 0 <= k < t1.len() ==> t1[k] == #[trigger] t[k]);
        lemma_filter_parallel(s1, t1, pa, pb);
        assert(pa(s.last()) == pb(t.last()));
        assert forall|k: int| 0 <= k < s.filter(pa).len() implies exists|m: int|
            0 <= m < s.len() && #[trigger] s.filter(pa)[k] == s[m] && t.filter(pb)[k] == t[m] by {
            if k < s1.filter(pa).len() {
                let m = choose|m: int|
                    0 <= m < s1.len() && #[trigger] s1.filter(pa)[k] == s1[m] && t1.filter(pb)[k]
                        == t1[m];
                assert(0 <= m < s.len() && s.filter(pa)[k] == s[m] && t.filter(pb)[k] == t[m]);
            } else {
                let m = s.len() - 1;
                assert(0 <= m < s.len() && s.filter(pa)[k] == s[m] && t.filter(pb)[k] == t[m]);
            }
        }
    }
}

/// Filtering a sequence none of whose elements match yields nothing.
pub proof fn lemma_filter_none<T>(s: Seq<T>, p: spec_fn(T) -> bool)
    requires
        forall|i: int| 0 <= i < s.len() ==> !p(#[trigger] s[i]),
    ensures
        s.filter(p) == Seq::<T>::empty(),
    decreases s.len(),
{
    reveal(Seq::filter);
    if s.len() > 0 {
        assert(forall|i: int|
            0 <= i < s.drop_last().len() ==> s.drop_last()[i] == #[trigger] s[i]);
        lemma_filter_none(s.drop_last(), p);
        assert(!p(s.last()));
    }
}

/// Filtering a sequence all of whose elements match yields it unchanged.
pub proof fn lemma_filter_all<T>(s: Seq<T>, p: spec_fn(T) -> bool)
    requires
        forall|i: int| 0 <= i < s.len() ==> p(#[trigger] s[i]),
    ensures
        s.filter(p) == s,
    decreases s.len(),
{
    reveal(Seq::filter);
    if s.len() > 0 {
        assert(forall|i: int|
            0 <= i < s.drop_last().len() ==> s.drop_last()[i] == #[trigger] s[i]);
        lemma_filter_all(s.drop_last(), p);
        assert(p(s.last()));
        assert(s.drop_last().push(s.last()) =~= s);
    }
}

} // verus!

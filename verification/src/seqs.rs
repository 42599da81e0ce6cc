//! Facts about sequences that the contracts of this library are stated with:
//! the first item that satisfies a predicate, and the results of a run of
//! fallible steps.
use vstd::prelude::*;

verus! {

/// `i` is the first index of `s` whose item satisfies `p`.
pub open spec fn is_first<A>(s: Seq<A>, p: spec_fn(A) -> bool, i: int) -> bool {
    &&& 0 <= i < s.len()
    &&& p(s[i])
    &&& forall|j: int| 0 <= j < i ==> !p(#[trigger] s[j])
}

/// The first index of `s` whose item satisfies `p`, if there is one.
pub open spec fn position<A>(s: Seq<A>, p: spec_fn(A) -> bool) -> Option<int> {
    if exists|i: int| is_first(s, p, i) {
        Some(choose|i: int| is_first(s, p, i))
    } else {
        None
    }
}

/// Some item of `s` satisfies `p`.
pub open spec fn any<A>(s: Seq<A>, p: spec_fn(A) -> bool) -> bool {
    exists|i: int| 0 <= i < s.len() && p(#[trigger] s[i])
}

/// The index of a first item that satisfies `p` is the position.
pub proof fn lemma_position_found<A>(s: Seq<A>, p: spec_fn(A) -> bool, i: int)
    requires
        is_first(s, p, i),
    ensures
        position(s, p) == Some(i),
{
    let k = choose|k: int| is_first(s, p, k);
    assert(is_first(s, p, k));
    if k < i {
        assert(!p(s[k]));
    }
    if i < k {
        assert(!p(s[i]));
    }
}

/// Where no item satisfies `p`, there is no position.
pub proof fn lemma_position_none<A>(s: Seq<A>, p: spec_fn(A) -> bool)
    requires
        forall|j: int| 0 <= j < s.len() ==> !p(#[trigger] s[j]),
    ensures
        position(s, p) is None,
{
}

/// A position is the index of a first item that satisfies `p`; there is one
/// exactly when some item does.
pub proof fn lemma_position<A>(s: Seq<A>, p: spec_fn(A) -> bool)
    ensures
        match position(s, p) {
            Some(i) => is_first(s, p, i),
            None => forall|j: int| 0 <= j < s.len() ==> !p(#[trigger] s[j]),
        },
        position(s, p) is Some <==> any(s, p),
{
    if position(s, p) is None {
        assert forall|j: int| 0 <= j < s.len() implies !p(#[trigger] s[j]) by {
            if p(s[j]) {
                lemma_first_exists(s, p, j);
            }
        }
    }
}

/// Where some item satisfies `p`, there is a first one.
pub proof fn lemma_first_exists<A>(s: Seq<A>, p: spec_fn(A) -> bool, j: int)
    requires
        0 <= j < s.len(),
        p(s[j]),
    ensures
        exists|i: int| is_first(s, p, i) && i <= j,
    decreases j,
{
    if exists|k: int| 0 <= k < j && p(s[k]) {
        let k = choose|k: int| 0 <= k < j && p(s[k]);
        lemma_first_exists(s, p, k);
    } else {
        assert(is_first(s, p, j));
    }
}

/// Sequences on whose items a predicate gives the same answers, index by
/// index, have the same position for it.
pub proof fn lemma_position_same<A, B>(
    s: Seq<A>,
    p: spec_fn(A) -> bool,
    t: Seq<B>,
    q: spec_fn(B) -> bool,
)
    requires
        s.len() == t.len(),
        forall|i: int| 0 <= i < s.len() ==> p(#[trigger] s[i]) == q(t[i]),
    ensures
        position(s, p) == position(t, q),
{
    lemma_position(s, p);
    lemma_position(t, q);
    match position(s, p) {
        Some(i) => {
            assert forall|j: int| 0 <= j < i implies !q(#[trigger] t[j]) by {
                assert(!p(s[j]));
            }
            lemma_position_found(t, q, i);
        },
        None => {
            assert forall|j: int| 0 <= j < t.len() implies !q(#[trigger] t[j]) by {
                assert(!p(s[j]));
            }
            lemma_position_none(t, q);
        },
    }
}

/// A selection that keeps every item that satisfies `t` keeps the first of
/// them as its first.
pub proof fn lemma_position_filter<A>(s: Seq<A>, p: spec_fn(A) -> bool, t: spec_fn(A) -> bool)
    requires
        forall|i: int| 0 <= i < s.len() && t(#[trigger] s[i]) ==> p(s[i]),
    ensures
        match position(s, t) {
            Some(k) => position(s.filter(p), t) matches Some(m) && s.filter(p)[m] == s[k],
            None => position(s.filter(p), t) is None,
        },
    decreases s.len(),
{
    reveal(Seq::filter);
    lemma_position(s, t);
    if s.len() == 0 {
        lemma_position_none(s.filter(p), t);
    } else {
        let front = s.drop_last();
        let kept = front.filter(p);
        let all = s.filter(p);
        let last = s[s.len() - 1];
        assert forall|i: int| 0 <= i < front.len() && t(#[trigger] front[i]) implies p(
            front[i],
        ) by {
            assert(front[i] == s[i]);
        }
        lemma_position_filter(front, p, t);
        lemma_position(front, t);
        lemma_position(kept, t);
        match position(front, t) {
            Some(k) => {
                let m = position(kept, t)->0;
                assert forall|j: int| 0 <= j < k implies !t(#[trigger] s[j]) by {
                    assert(front[j] == s[j]);
                }
                assert(s[k] == front[k]);
                lemma_position_found(s, t, k);
                assert forall|j: int| 0 <= j < m implies !t(#[trigger] all[j]) by {
                    assert(all[j] == kept[j]);
                }
                assert(all[m] == kept[m]);
                lemma_position_found(all, t, m);
            },
            None => {
                assert forall|j: int| 0 <= j < s.len() - 1 implies !t(#[trigger] s[j]) by {
                    assert(front[j] == s[j]);
                }
                if t(last) {
                    lemma_position_found(s, t, s.len() - 1);
                    assert forall|j: int| 0 <= j < kept.len() implies !t(#[trigger] all[j]) by {
                        assert(all[j] == kept[j]);
                    }
                    assert(all[kept.len() as int] == last);
                    lemma_position_found(all, t, kept.len() as int);
                } else {
                    lemma_position_none(s, t);
                    assert forall|j: int| 0 <= j < all.len() implies !t(#[trigger] all[j]) by {
                        if j < kept.len() {
                            assert(all[j] == kept[j]);
                        } else {
                            assert(all[j] == last);
                        }
                    }
                    lemma_position_none(all, t);
                }
            },
        }
    }
}

/// The predicate that holds of the failures.
pub open spec fn failed<T, E>() -> spec_fn(Result<T, E>) -> bool {
    |r: Result<T, E>| r is Err
}

/// The results of a run of steps that stops at the first failure: the error
/// of the first step that failed, or what all the steps gave.
pub open spec fn collect<T, E>(s: Seq<Result<T, E>>) -> Result<Seq<T>, E> {
    match position(s, failed::<T, E>()) {
        Some(i) => Err(s[i]->Err_0),
        None => Ok(Seq::new(s.len(), |i: int| s[i]->Ok_0)),
    }
}

/// A run whose step `i` is the first to fail gives the error of step `i`.
pub proof fn lemma_collect_err<T, E>(s: Seq<Result<T, E>>, i: int)
    requires
        0 <= i < s.len(),
        s[i] is Err,
        forall|j: int| 0 <= j < i ==> (#[trigger] s[j]) is Ok,
    ensures
        collect(s) == Err::<Seq<T>, E>(s[i]->Err_0),
{
    lemma_position_found(s, failed::<T, E>(), i);
}

/// A run whose steps all succeed gives what the steps gave.
pub proof fn lemma_collect_ok<T, E>(s: Seq<Result<T, E>>, out: Seq<T>)
    requires
        s.len() == out.len(),
        forall|j: int| 0 <= j < s.len() ==> (#[trigger] s[j]) == Ok::<T, E>(out[j]),
    ensures
        collect(s) == Ok::<Seq<T>, E>(out),
{
    lemma_position_none(s, failed::<T, E>());
    assert(Seq::new(s.len(), |i: int| s[i]->Ok_0) =~= out);
}

/// What `collect` gives, read the other way round.
pub proof fn lemma_collect<T, E>(s: Seq<Result<T, E>>)
    ensures
        match collect(s) {
            Ok(out) => out.len() == s.len() && forall|j: int|
                0 <= j < s.len() ==> (#[trigger] s[j]) == Ok::<T, E>(out[j]),
            Err(e) => exists|i: int|
                0 <= i < s.len() && s[i] == Err::<T, E>(e) && forall|j: int|
                    0 <= j < i ==> (#[trigger] s[j]) is Ok,
        },
{
    lemma_position(s, failed::<T, E>());
    match position(s, failed::<T, E>()) {
        Some(i) => {
            assert(s[i] == Err::<T, E>(s[i]->Err_0));
            assert(forall|j: int| 0 <= j < i ==> (#[trigger] s[j]) is Ok);
        },
        None => {},
    }
}

/// The items before index `i + 1` that satisfy `p` are those before `i`,
/// followed by item `i` if it satisfies `p`.
pub proof fn lemma_filter_step<A>(s: Seq<A>, p: spec_fn(A) -> bool, i: int)
    requires
        0 <= i < s.len(),
    ensures
        s.take(i + 1).filter(p) == if p(s[i]) {
            s.take(i).filter(p).push(s[i])
        } else {
            s.take(i).filter(p)
        },
{
    assert(s.take(i + 1) =~= s.take(i).push(s[i]));
    s.take(i).lemma_filter_push(s[i], p);
}

/// The items from index `i` on that satisfy `p` are item `i`, if it
/// satisfies `p`, followed by those from `i + 1` on.
pub proof fn lemma_filter_skip<A>(s: Seq<A>, p: spec_fn(A) -> bool, i: int)
    requires
        0 <= i < s.len(),
    ensures
        s.skip(i).filter(p) == (if p(s[i]) {
            seq![s[i]]
        } else {
            Seq::empty()
        }) + s.skip(i + 1).filter(p),
{
    assert(s.skip(i) =~= seq![s[i]] + s.skip(i + 1));
    s.skip(i + 1).lemma_filter_prepend(s[i], p);
}

/// Predicates that agree on the items of `s` select the same items.
pub proof fn lemma_filter_same<A>(s: Seq<A>, p: spec_fn(A) -> bool, q: spec_fn(A) -> bool)
    requires
        forall|i: int| 0 <= i < s.len() ==> p(#[trigger] s[i]) == q(s[i]),
    ensures
        s.filter(p) == s.filter(q),
    decreases s.len(),
{
    reveal(Seq::filter);
    if s.len() > 0 {
        let t = s.drop_last();
        assert forall|i: int| 0 <= i < t.len() implies p(#[trigger] t[i]) == q(t[i]) by {
            assert(t[i] == s[i]);
        }
        lemma_filter_same(t, p, q);
    }
}

/// A predicate that holds of every item selects them all.
pub proof fn lemma_filter_all<A>(s: Seq<A>, p: spec_fn(A) -> bool)
    requires
        forall|i: int| 0 <= i < s.len() ==> p(#[trigger] s[i]),
    ensures
        s.filter(p) == s,
    decreases s.len(),
{
    reveal(Seq::filter);
    if s.len() > 0 {
        let t = s.drop_last();
        assert forall|i: int| 0 <= i < t.len() implies p(#[trigger] t[i]) by {
            assert(t[i] == s[i]);
        }
        lemma_filter_all(t, p);
        assert(t.push(s.last()) =~= s);
    }
}

/// Every selected item is an item of the sequence and satisfies the
/// predicate; the selected items keep their order.
pub proof fn lemma_filter_source<A>(s: Seq<A>, p: spec_fn(A) -> bool)
    ensures
        forall|a: int|
            0 <= a < s.filter(p).len() ==> p(#[trigger] s.filter(p)[a]) && s.contains(
                s.filter(p)[a],
            ),
        forall|i: int| 0 <= i < s.len() && p(s[i]) ==> s.filter(p).contains(#[trigger] s[i]),
    decreases s.len(),
{
    reveal(Seq::filter);
    let f = s.filter(p);
    if s.len() > 0 {
        let t = s.drop_last();
        let g = t.filter(p);
        lemma_filter_source(t, p);
        assert forall|a: int| 0 <= a < f.len() implies p(#[trigger] f[a]) && s.contains(f[a]) by {
            if a < g.len() {
                assert(f[a] == g[a]);
                assert(t.contains(g[a]));
                let k = choose|k: int| 0 <= k < t.len() && t[k] == g[a];
                assert(s[k] == f[a]);
            } else {
                assert(f[a] == s[s.len() - 1]);
            }
        }
        assert forall|i: int| 0 <= i < s.len() && p(s[i]) implies f.contains(#[trigger] s[i]) by {
            if i < t.len() {
                assert(t[i] == s[i]);
                assert(g.contains(t[i]));
                let k = choose|k: int| 0 <= k < g.len() && g[k] == t[i];
                assert(f[k] == s[i]);
            } else {
                assert(f[f.len() - 1] == s[i]);
            }
        }
    }
}

/// Selecting from a sequence without item `i` is selecting with a predicate
/// that fails on item `i` and agrees on the others.
pub proof fn lemma_filter_remove<A>(
    s: Seq<A>,
    i: int,
    p: spec_fn(A) -> bool,
    q: spec_fn(A) -> bool,
)
    requires
        0 <= i < s.len(),
        !q(s[i]),
        forall|k: int| 0 <= k < s.len() && k != i ==> q(#[trigger] s[k]) == p(s[k]),
    ensures
        s.remove(i).filter(p) == s.filter(q),
    decreases s.len(),
{
    reveal(Seq::filter);
    let t = s.drop_last();
    if i == s.len() - 1 {
        assert(s.remove(i) =~= t);
        assert forall|k: int| 0 <= k < t.len() implies p(#[trigger] t[k]) == q(t[k]) by {
            assert(t[k] == s[k]);
        }
        lemma_filter_same(t, p, q);
    } else {
        assert forall|k: int| 0 <= k < t.len() && k != i implies q(#[trigger] t[k]) == p(
            t[k],
        ) by {
            assert(t[k] == s[k]);
        }
        lemma_filter_remove(t, i, p, q);
        assert(s.remove(i) =~= t.remove(i).push(s.last()));
        t.remove(i).lemma_filter_push(s.last(), p);
        assert(s.last() == s[s.len() - 1]);
    }
}

/// Where every item but the one at index `j` satisfies the predicate, the
/// selection is the whole sequence, with or without that item.
pub proof fn lemma_filter_but_one<A>(s: Seq<A>, j: int, p: spec_fn(A) -> bool)
    requires
        0 <= j < s.len(),
        forall|m: int| 0 <= m < s.len() && m != j ==> p(#[trigger] s[m]),
    ensures
        s.filter(p) == if p(s[j]) {
            s
        } else {
            s.remove(j)
        },
{
    if p(s[j]) {
        lemma_filter_all(s, p);
    } else {
        let rest = s.remove(j);
        assert forall|m: int| 0 <= m < rest.len() implies p(#[trigger] rest[m]) by {
            if m < j {
                assert(rest[m] == s[m]);
            } else {
                assert(rest[m] == s[m + 1]);
            }
        }
        lemma_filter_all(rest, p);
        lemma_filter_remove(s, j, p, p);
    }
}

/// The predicate that holds of every item.
pub open spec fn always<A>() -> spec_fn(A) -> bool {
    |x: A| true
}

/// Selecting twice is selecting with both predicates at once.
pub proof fn lemma_filter_twice<A>(
    s: Seq<A>,
    p: spec_fn(A) -> bool,
    q: spec_fn(A) -> bool,
    both: spec_fn(A) -> bool,
)
    requires
        forall|i: int| 0 <= i < s.len() ==> both(#[trigger] s[i]) == (p(s[i]) && q(s[i])),
    ensures
        s.filter(p).filter(q) == s.filter(both),
    decreases s.len(),
{
    reveal(Seq::filter);
    if s.len() > 0 {
        let t = s.drop_last();
        assert forall|i: int| 0 <= i < t.len() implies both(#[trigger] t[i]) == (p(t[i]) && q(
            t[i],
        )) by {
            assert(t[i] == s[i]);
        }
        lemma_filter_twice(t, p, q, both);
        assert(s.last() == s[s.len() - 1]);
        if p(s.last()) {
            t.filter(p).lemma_filter_push(s.last(), q);
        }
    }
}

/// Selecting from the images of the items is taking the images of the items
/// whose image is selected.
pub proof fn lemma_map_filter<A, B>(
    s: Seq<A>,
    f: spec_fn(A) -> B,
    p: spec_fn(B) -> bool,
    pf: spec_fn(A) -> bool,
)
    requires
        forall|i: int| 0 <= i < s.len() ==> pf(#[trigger] s[i]) == p(f(s[i])),
    ensures
        s.map_values(f).filter(p) == s.filter(pf).map_values(f),
    decreases s.len(),
{
    reveal(Seq::filter);
    if s.len() > 0 {
        let t = s.drop_last();
        assert forall|i: int| 0 <= i < t.len() implies pf(#[trigger] t[i]) == p(f(t[i])) by {
            assert(t[i] == s[i]);
        }
        lemma_map_filter(t, f, p, pf);
        assert(s.map_values(f).drop_last() =~= t.map_values(f));
        assert(s.map_values(f).last() == f(s.last()));
        assert(s.last() == s[s.len() - 1]);
        if pf(s.last()) {
            assert(t.filter(pf).push(s.last()).map_values(f) =~= t.filter(pf).map_values(f).push(
                f(s.last()),
            ));
        }
    } else {
        assert(s.map_values(f) =~= Seq::empty());
        assert(s.filter(pf).map_values(f) =~= Seq::empty());
    }
}

/// An item is in a concatenation exactly when it is in one of the two parts.
pub proof fn lemma_contains_add<A>(a: Seq<A>, b: Seq<A>, x: A)
    ensures
        (a + b).contains(x) <==> a.contains(x) || b.contains(x),
{
    if a.contains(x) {
        let i = choose|i: int| 0 <= i < a.len() && a[i] == x;
        assert((a + b)[i] == x);
    }
    if b.contains(x) {
        let i = choose|i: int| 0 <= i < b.len() && b[i] == x;
        assert((a + b)[a.len() + i] == x);
    }
    if (a + b).contains(x) {
        let i = choose|i: int| 0 <= i < (a + b).len() && (a + b)[i] == x;
        if i < a.len() {
            assert(a[i] == x);
        } else {
            assert(b[i - a.len()] == x);
        }
    }
}

/// A first selection that loses only items whose image the second selection
/// would lose anyway makes no difference.
pub proof fn lemma_filter_map_filter<A, B>(
    s: Seq<A>,
    p: spec_fn(A) -> bool,
    f: spec_fn(A) -> B,
    q: spec_fn(B) -> bool,
)
    requires
        forall|i: int| 0 <= i < s.len() && q(f(#[trigger] s[i])) ==> p(s[i]),
    ensures
        s.filter(p).map_values(f).filter(q) == s.map_values(f).filter(q),
    decreases s.len(),
{
    reveal(Seq::filter);
    if s.len() > 0 {
        let t = s.drop_last();
        assert forall|i: int| 0 <= i < t.len() && q(f(#[trigger] t[i])) implies p(t[i]) by {
            assert(t[i] == s[i]);
        }
        lemma_filter_map_filter(t, p, f, q);
        assert(s.map_values(f).drop_last() =~= t.map_values(f));
        assert(s.map_values(f).last() == f(s.last()));
        assert(s.last() == s[s.len() - 1]);
        if p(s.last()) {
            assert(t.filter(p).push(s.last()).map_values(f) =~= t.filter(p).map_values(f).push(
                f(s.last()),
            ));
            t.filter(p).map_values(f).lemma_filter_push(f(s.last()), q);
        }
    } else {
        assert(s.map_values(f) =~= Seq::empty());
        assert(s.filter(p).map_values(f) =~= Seq::empty());
    }
}

/// No two items of `s` have the same key.
pub open spec fn distinct_by<A, K>(s: Seq<A>, key: spec_fn(A) -> K) -> bool {
    forall|i: int, k: int| 0 <= i < k < s.len() ==> key(#[trigger] s[i]) != key(#[trigger] s[k])
}

/// A selection from items with distinct keys has distinct keys.
pub proof fn lemma_filter_distinct<A, K>(s: Seq<A>, p: spec_fn(A) -> bool, key: spec_fn(A) -> K)
    requires
        distinct_by(s, key),
    ensures
        distinct_by(s.filter(p), key),
    decreases s.len(),
{
    reveal(Seq::filter);
    if s.len() > 0 {
        let t = s.drop_last();
        let g = t.filter(p);
        let f = s.filter(p);
        assert forall|i: int, k: int| 0 <= i < k < t.len() implies key(#[trigger] t[i]) != key(
            #[trigger] t[k],
        ) by {
            assert(t[i] == s[i] && t[k] == s[k]);
        }
        lemma_filter_distinct(t, p, key);
        lemma_filter_source(t, p);
        assert forall|i: int, k: int| 0 <= i < k < f.len() implies key(#[trigger] f[i]) != key(
            #[trigger] f[k],
        ) by {
            if k < g.len() {
                assert(f[i] == g[i] && f[k] == g[k]);
            } else {
                assert(f[i] == g[i]);
                assert(t.contains(g[i]));
                let m = choose|m: int| 0 <= m < t.len() && t[m] == g[i];
                assert(s[m] == f[i]);
                assert(f[k] == s[s.len() - 1]);
            }
        }
    }
}

} // verus!

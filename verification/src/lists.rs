//! Searching and thinning out lists.

use vstd::prelude::*;

verus! {

/// The index of the first entry of `s` that `p` holds of.
pub open spec fn first_index<T>(s: Seq<T>, p: spec_fn(T) -> bool) -> Option<int>
    decreases s.len(),
{
    if s.len() == 0 {
        None
    } else if p(s[0]) {
        Some(0)
    } else {
        match first_index(s.drop_first(), p) {
            Some(i) => Some(i + 1),
            None => None,
        }
    }
}

/// The first index is in range, satisfies `p`, and no earlier one does; where
/// there is none, no entry satisfies `p`.
pub proof fn lemma_first_index<T>(s: Seq<T>, p: spec_fn(T) -> bool)
    ensures
        match first_index(s, p) {
            Some(i) => 0 <= i < s.len() && p(s[i]) && forall|j: int|
                0 <= j < i ==> !p(#[trigger] s[j]),
            None => forall|j: int| 0 <= j < s.len() ==> !p(#[trigger] s[j]),
        },
    decreases s.len(),
{
    if s.len() > 0 && !p(s[0]) {
        let t = s.drop_first();
        lemma_first_index(t, p);
        match first_index(t, p) {
            Some(i) => {
                assert(t[i] == s[i + 1]);
                assert forall|j: int| 0 <= j < i + 1 implies !p(#[trigger] s[j]) by {
                    if j > 0 {
                        assert(t[j - 1] == s[j]);
                    }
                }
            },
            None => {
                assert forall|j: int| 0 <= j < s.len() implies !p(#[trigger] s[j]) by {
                    if j > 0 {
                        assert(t[j - 1] == s[j]);
                    }
                }
            },
        }
    }
}

/// An index that satisfies `p`, no earlier one doing so, is the first index.
pub proof fn lemma_is_first_index<T>(s: Seq<T>, p: spec_fn(T) -> bool, i: int)
    requires
        0 <= i < s.len(),
        p(s[i]),
        forall|j: int| 0 <= j < i ==> !p(#[trigger] s[j]),
    ensures
        first_index(s, p) == Some(i),
{
    lemma_first_index(s, p);
}

/// Where no entry satisfies `p`, there is no first index.
pub proof fn lemma_no_first_index<T>(s: Seq<T>, p: spec_fn(T) -> bool)
    requires
        forall|j: int| 0 <= j < s.len() ==> !p(#[trigger] s[j]),
    ensures
        first_index(s, p) is None,
{
    lemma_first_index(s, p);
}

/// The first index in a list that was changed entry by entry, where `p` holds
/// of a changed entry just where `q` holds of the entry.
pub proof fn lemma_map_first_index<A, B>(
    s: Seq<A>,
    f: spec_fn(A) -> B,
    q: spec_fn(A) -> bool,
    p: spec_fn(B) -> bool,
)
    requires
        forall|x: A| p(f(x)) == #[trigger] q(x),
    ensures
        first_index(s.map_values(f), p) == first_index(s, q),
{
    lemma_first_index(s, q);
    let t = s.map_values(f);
    match first_index(s, q) {
        Some(i) => {
            assert forall|j: int| 0 <= j < i implies !p(#[trigger] t[j]) by {
                assert(!q(s[j]));
            }
            assert(q(s[i]));
            lemma_is_first_index(t, p, i);
        },
        None => {
            assert forall|j: int| 0 <= j < t.len() implies !p(#[trigger] t[j]) by {
                assert(!q(s[j]));
            }
            lemma_no_first_index(t, p);
        },
    }
}

/// Appending an entry loses no match.
pub proof fn lemma_push_keeps_match<T>(s: Seq<T>, p: spec_fn(T) -> bool, x: T)
    ensures
        first_index(s, p) is Some ==> first_index(s.push(x), p) == first_index(s, p),
        first_index(s, p) is None ==> first_index(s.push(x), p) == (if p(x) {
            Some(s.len() as int)
        } else {
            None
        }),
{
    lemma_first_index(s, p);
    let t = s.push(x);
    match first_index(s, p) {
        Some(i) => {
            assert(t[i] == s[i]);
            assert forall|j: int| 0 <= j < i implies !p(#[trigger] t[j]) by {
                assert(!p(s[j]));
            }
            lemma_is_first_index(t, p, i);
        },
        None => {
            assert forall|j: int| 0 <= j < s.len() implies !p(#[trigger] t[j]) by {
                assert(!p(s[j]));
            }
            if p(x) {
                lemma_is_first_index(t, p, s.len() as int);
            } else {
                lemma_no_first_index(t, p);
            }
        },
    }
}

/// Removing an entry that does not match loses no match.
pub proof fn lemma_remove_keeps_match<T>(s: Seq<T>, p: spec_fn(T) -> bool, i: int)
    requires
        0 <= i < s.len(),
        !p(s[i]),
        first_index(s, p) is Some,
    ensures
        first_index(s.remove(i), p) is Some,
{
    lemma_first_index(s, p);
    let t = s.remove(i);
    lemma_first_index(t, p);
    let m = first_index(s, p)->0;
    if m < i {
        assert(t[m] == s[m]);
    } else {
        assert(t[m - 1] == s[m]);
    }
}

/// Thinning out commutes with a change of the entries that keeps what is
/// accepted.
pub proof fn lemma_map_filter<A, B>(
    s: Seq<A>,
    f: spec_fn(A) -> B,
    q: spec_fn(A) -> bool,
    p: spec_fn(B) -> bool,
)
    requires
        forall|x: A| p(f(x)) == #[trigger] q(x),
    ensures
        s.map_values(f).filter(p) == s.filter(q).map_values(f),
    decreases s.len(),
{
    reveal(Seq::filter);
    if s.len() > 0 {
        lemma_map_filter(s.drop_last(), f, q, p);
        assert(s.map_values(f).drop_last() =~= s.drop_last().map_values(f));
        assert(q(s.last()) == p(f(s.last())));
        assert(s.map_values(f).filter(p) =~= s.filter(q).map_values(f));
    } else {
        assert(s.map_values(f).filter(p) =~= s.filter(q).map_values(f));
    }
}

/// The index of the first entry that `f` accepts; `f` computes `p`.
pub(crate) fn position<T, F: Fn(&T) -> bool>(v: &Vec<T>, f: F, p: Ghost<spec_fn(T) -> bool>) -> (r:
    Option<usize>)
    requires
        forall|x: &T| call_requires(f, (x,)),
        forall|x: &T, b: bool| call_ensures(f, (x,), b) ==> b == p@(*x),
    ensures
        match r {
            Some(i) => first_index(v@, p@) == Some(i as int) && i < v@.len() && p@(v@[i as int]),
            None => first_index(v@, p@) is None && forall|j: int|
                0 <= j < v@.len() ==> !p@(#[trigger] v@[j]),
        },
{
    let mut i: usize = 0;
    while i < v.len()
        invariant
            i <= v@.len(),
            forall|x: &T| call_requires(f, (x,)),
            forall|x: &T, b: bool| call_ensures(f, (x,), b) ==> b == p@(*x),
            forall|j: int| 0 <= j < i ==> !p@(#[trigger] v@[j]),
        decreases v@.len() - i,
    {
        if f(&v[i]) {
            proof {
                lemma_is_first_index(v@, p@, i as int);
            }
            return Some(i);
        }
        i = i + 1;
    }
    proof {
        lemma_no_first_index(v@, p@);
    }
    None
}

/// Removes the entries that `f` does not accept; `f` computes `p`.
pub(crate) fn retain<T, F: Fn(&T) -> bool>(v: &mut Vec<T>, f: F, p: Ghost<spec_fn(T) -> bool>)
    requires
        forall|x: &T| call_requires(f, (x,)),
        forall|x: &T, b: bool| call_ensures(f, (x,), b) ==> b == p@(*x),
    ensures
        final(v)@ == old(v)@.filter(p@),
{
    let ghost all = v@;
    let mut i: usize = 0;
    let ghost mut n: int = 0;
    proof {
        reveal(Seq::filter);
        assert(all.take(0).filter(p@) =~= Seq::<T>::empty());
        assert(v@ =~= all.take(0).filter(p@) + all.skip(0));
    }
    while i < v.len()
        invariant
            0 <= n <= all.len(),
            i == all.take(n).filter(p@).len(),
            v@ == all.take(n).filter(p@) + all.skip(n),
            forall|x: &T| call_requires(f, (x,)),
            forall|x: &T, b: bool| call_ensures(f, (x,), b) ==> b == p@(*x),
        decreases all.len() - n,
    {
        let keep = f(&v[i]);
        proof {
            assert(n < all.len());
            assert(v@[i as int] == all[n]);
            assert(all.take(n + 1) =~= all.take(n).push(all[n]));
            all.take(n).lemma_filter_push(all[n], p@);
        }
        if keep {
            i = i + 1;
            assert(v@ =~= all.take(n + 1).filter(p@) + all.skip(n + 1));
        } else {
            v.remove(i);
            assert(v@ =~= all.take(n + 1).filter(p@) + all.skip(n + 1));
        }
        proof {
            n = n + 1;
        }
    }
    proof {
        assert(n == all.len()) by {
            assert(v@.len() == i + (all.len() - n));
        }
        assert(all.take(n) =~= all);
        assert(all.skip(n) =~= Seq::<T>::empty());
        assert(v@ =~= all.filter(p@));
    }
}

/// Copies of the entries that `f` accepts, in order; `f` computes `p`.
pub(crate) fn select<T: Clone, F: Fn(&T) -> bool>(
    v: &Vec<T>,
    f: F,
    p: Ghost<spec_fn(T) -> bool>,
) -> (r: Vec<T>)
    requires
        forall|x: &T| call_requires(f, (x,)),
        forall|x: &T, b: bool| call_ensures(f, (x,), b) ==> b == p@(*x),
        forall|x: &T| call_requires(T::clone, (x,)),
        forall|x: &T, y: T| call_ensures(T::clone, (x,), y) ==> y == *x,
    ensures
        r@ == v@.filter(p@),
{
    let mut r: Vec<T> = Vec::new();
    let mut i: usize = 0;
    proof {
        reveal(Seq::filter);
        assert(r@ =~= v@.take(0).filter(p@));
    }
    while i < v.len()
        invariant
            i <= v@.len(),
            forall|x: &T| call_requires(f, (x,)),
            forall|x: &T, b: bool| call_ensures(f, (x,), b) ==> b == p@(*x),
            forall|x: &T| call_requires(T::clone, (x,)),
            forall|x: &T, y: T| call_ensures(T::clone, (x,), y) ==> y == *x,
            r@ == v@.take(i as int).filter(p@),
        decreases v@.len() - i,
    {
        proof {
            let t = v@.take(i as int);
            t.lemma_filter_push(v@[i as int], p@);
            assert(v@.take(i + 1) =~= t.push(v@[i as int]));
        }
        if f(&v[i]) {
            r.push(v[i].clone());
        }
        i = i + 1;
    }
    assert(v@.take(i as int) =~= v@);
    r
}

} // verus!

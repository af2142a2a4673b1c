//! Lists ordered by a key: stable sorting, and the sorted list that keeps the
//! last entry of each key.

use vstd::prelude::*;

#[allow(unused_imports)]
use crate::text;

verus! {

/// A value that lists are ordered by the key of.
pub trait HasKey: Sized {
    /// The key; keys are compared lexicographically.
    spec fn key(&self) -> Seq<int>;
}

/// A value whose key can be compared with another's.
pub trait Keyed: HasKey {
    /// Whether this value's key comes before that of `other`.
    fn precedes(&self, other: &Self) -> (r: bool)
        ensures
            r == text::lex_less(self.key(), other.key()),
    ;
}

/// No entry is followed by one with a smaller key.
pub open spec fn sorted<T: HasKey>(s: Seq<T>) -> bool {
    forall|i: int, j: int|
        0 <= i < j < s.len() ==> !text::lex_less(#[trigger] s[j].key(), #[trigger] s[i].key())
}

/// Every entry's key comes before those of all later entries.
pub open spec fn strictly_sorted<T: HasKey>(s: Seq<T>) -> bool {
    forall|i: int, j: int|
        0 <= i < j < s.len() ==> text::lex_less(#[trigger] s[i].key(), #[trigger] s[j].key())
}

/// No two entries share a key.
pub open spec fn unique_keys<T: HasKey>(s: Seq<T>) -> bool {
    forall|i: int, j: int|
        0 <= i < j < s.len() ==> #[trigger] s[i].key() != #[trigger] s[j].key()
}

/// The entries of `s` with the key `k`, in order.
pub open spec fn with_key<T: HasKey>(s: Seq<T>, k: Seq<int>) -> Seq<T> {
    s.filter(|e: T| e.key() == k)
}

/// `output` holds the entries of `input` in the order of their keys, entries
/// with one key in the order that they had.
pub open spec fn is_stable_sort<T: HasKey>(input: Seq<T>, output: Seq<T>) -> bool {
    &&& sorted(output)
    &&& forall|k: Seq<int>| #[trigger] with_key(output, k) == with_key(input, k)
}

/// The last entry of `s` alone.
pub open spec fn last_only<T>(s: Seq<T>) -> Seq<T> {
    if s.len() == 0 {
        s
    } else {
        seq![s.last()]
    }
}

/// `output` holds, in the order of the keys, the last entry of `input` with
/// each key.
pub open spec fn is_collected<T: HasKey>(input: Seq<T>, output: Seq<T>) -> bool {
    &&& strictly_sorted(output)
    &&& forall|k: Seq<int>| #[trigger] with_key(output, k) == last_only(with_key(input, k))
}

/// Each entry of `a` has its like in `b`, and each of `b` in `a`.
pub open spec fn mirrors<A, B>(a: Seq<A>, b: Seq<B>, like: spec_fn(A, B) -> bool) -> bool {
    &&& forall|i: int| 0 <= i < a.len() ==> has_like(#[trigger] a[i], b, like)
    &&& forall|j: int| 0 <= j < b.len() ==> is_like_of(a, #[trigger] b[j], like)
}

pub open spec fn has_like<A, B>(x: A, b: Seq<B>, like: spec_fn(A, B) -> bool) -> bool {
    exists|j: int| 0 <= j < b.len() && like(x, #[trigger] b[j])
}

pub open spec fn is_like_of<A, B>(a: Seq<A>, y: B, like: spec_fn(A, B) -> bool) -> bool {
    exists|i: int| 0 <= i < a.len() && like(#[trigger] a[i], y)
}

pub proof fn lemma_lex_irreflexive(a: Seq<int>)
    ensures
        !text::lex_less(a, a),
    decreases a.len(),
{
    if a.len() > 0 {
        lemma_lex_irreflexive(a.drop_first());
    }
}

pub proof fn lemma_lex_transitive(a: Seq<int>, b: Seq<int>, c: Seq<int>)
    requires
        text::lex_less(a, b),
        text::lex_less(b, c),
    ensures
        text::lex_less(a, c),
    decreases a.len(),
{
    if a.len() > 0 && a[0] == b[0] && b[0] == c[0] {
        lemma_lex_transitive(a.drop_first(), b.drop_first(), c.drop_first());
    }
}

pub proof fn lemma_lex_total(a: Seq<int>, b: Seq<int>)
    ensures
        text::lex_less(a, b) || text::lex_less(b, a) || a == b,
    decreases a.len(),
{
    if a.len() == 0 && b.len() == 0 {
        assert(a =~= b);
    } else if a.len() > 0 && b.len() > 0 && a[0] == b[0] {
        lemma_lex_total(a.drop_first(), b.drop_first());
        if a.drop_first() == b.drop_first() {
            assert(a =~= seq![a[0]] + a.drop_first());
            assert(b =~= seq![b[0]] + b.drop_first());
        }
    }
}

/// If `a` is not after `b` and `b` comes before `c`, `a` comes before `c`.
pub proof fn lemma_lex_le_less(a: Seq<int>, b: Seq<int>, c: Seq<int>)
    requires
        !text::lex_less(b, a),
        text::lex_less(b, c),
    ensures
        text::lex_less(a, c),
{
    lemma_lex_total(a, b);
    if text::lex_less(a, b) {
        lemma_lex_transitive(a, b, c);
    }
}

proof fn lemma_insert_with_key<T: HasKey>(s: Seq<T>, p: int, x: T, k: Seq<int>)
    requires
        0 <= p <= s.len(),
    ensures
        with_key(s.insert(p, x), k) == with_key(s.take(p), k) + with_key(seq![x], k) + with_key(
            s.skip(p),
            k,
        ),
        with_key(s, k) == with_key(s.take(p), k) + with_key(s.skip(p), k),
{
    let pred = |e: T| e.key() == k;
    assert(s.insert(p, x) =~= s.take(p) + seq![x] + s.skip(p));
    assert(s =~= s.take(p) + s.skip(p));
    Seq::filter_distributes_over_add(s.take(p) + seq![x], s.skip(p), pred);
    Seq::filter_distributes_over_add(s.take(p), seq![x], pred);
    Seq::filter_distributes_over_add(s.take(p), s.skip(p), pred);
}

proof fn lemma_single_with_key<T: HasKey>(x: T, k: Seq<int>)
    ensures
        with_key(seq![x], k) == (if x.key() == k {
            seq![x]
        } else {
            seq![]
        }),
{
    let pred = |e: T| e.key() == k;
    let s = seq![x];
    reveal_with_fuel(Seq::filter, 2);
    assert(s.last() == x);
    assert(s.drop_last() =~= Seq::<T>::empty());
    assert(s.drop_last().filter(pred) =~= Seq::<T>::empty());
    if pred(x) {
        assert(s.filter(pred) =~= seq![x]);
    } else {
        assert(s.filter(pred) =~= Seq::<T>::empty());
    }
}

proof fn lemma_no_such_key<T: HasKey>(s: Seq<T>, k: Seq<int>)
    requires
        forall|i: int| 0 <= i < s.len() ==> (#[trigger] s[i]).key() != k,
    ensures
        with_key(s, k) == Seq::<T>::empty(),
    decreases s.len(),
{
    reveal(Seq::filter);
    if s.len() > 0 {
        lemma_no_such_key(s.drop_last(), k);
        assert(s.last() == s[s.len() - 1]);
    } else {
        assert(s =~= Seq::<T>::empty());
    }
}

proof fn lemma_append_with_key<T: HasKey>(a: Seq<T>, b: Seq<T>, k: Seq<int>)
    ensures
        with_key(a + b, k) == with_key(a, k) + with_key(b, k),
{
    Seq::filter_distributes_over_add(a, b, |e: T| e.key() == k);
}

/// The entries of `s` with the key of `x` hold `x` just where `s` does.
pub proof fn lemma_with_key_contains<T: HasKey>(s: Seq<T>, x: T)
    ensures
        with_key(s, x.key()).contains(x) == s.contains(x),
        forall|k: Seq<int>|
            with_key(s, k).contains(x) ==> x.key() == k && s.contains(x),
{
    let k0 = x.key();
    let pred = |e: T| e.key() == k0;
    if s.contains(x) {
        let i = choose|i: int| 0 <= i < s.len() && s[i] == x;
        s.lemma_filter_contains(pred, i);
    }
    if s.filter(pred).contains(x) {
        s.lemma_filter_contains_rev(pred, x);
    }
    assert forall|k: Seq<int>| with_key(s, k).contains(x) implies x.key() == k && s.contains(x) by {
        let p = |e: T| e.key() == k;
        s.lemma_filter_contains_rev(p, x);
        let i = choose|i: int| 0 <= i < s.filter(p).len() && s.filter(p)[i] == x;
        s.lemma_filter_pred(p, i);
    }
}

/// Where keys are unique, each key leads to its one entry.
pub proof fn lemma_unique_with_key<T: HasKey>(s: Seq<T>, i: int)
    requires
        unique_keys(s),
        0 <= i < s.len(),
    ensures
        with_key(s, s[i].key()) == seq![s[i]],
{
    let k = s[i].key();
    let a = s.take(i);
    let b = s.skip(i + 1);
    assert(s =~= a.push(s[i]) + b);
    lemma_append_with_key(a.push(s[i]), b, k);
    assert(a.push(s[i]) =~= a + seq![s[i]]);
    lemma_append_with_key(a, seq![s[i]], k);
    lemma_single_with_key(s[i], k);
    assert forall|j: int| 0 <= j < a.len() implies (#[trigger] a[j]).key() != k by {
        assert(s[j].key() != s[i].key());
    }
    assert forall|j: int| 0 <= j < b.len() implies (#[trigger] b[j]).key() != k by {
        assert(s[i].key() != s[i + 1 + j].key());
    }
    lemma_no_such_key(a, k);
    lemma_no_such_key(b, k);
    assert(Seq::<T>::empty() + seq![s[i]] + Seq::<T>::empty() =~= seq![s[i]]);
}

pub proof fn lemma_strictly_sorted_unique<T: HasKey>(s: Seq<T>)
    requires
        strictly_sorted(s),
    ensures
        unique_keys(s),
        sorted(s),
{
    assert forall|i: int, j: int| 0 <= i < j < s.len() implies #[trigger] s[i].key()
        != #[trigger] s[j].key() by {
        lemma_lex_irreflexive(s[i].key());
    }
    assert forall|i: int, j: int| 0 <= i < j < s.len() implies !text::lex_less(
        #[trigger] s[j].key(),
        #[trigger] s[i].key(),
    ) by {
        if text::lex_less(s[j].key(), s[i].key()) {
            lemma_lex_transitive(s[i].key(), s[j].key(), s[i].key());
            lemma_lex_irreflexive(s[i].key());
        }
    }
}

pub proof fn lemma_sorted_unique_strict<T: HasKey>(s: Seq<T>)
    requires
        sorted(s),
        unique_keys(s),
    ensures
        strictly_sorted(s),
{
    assert forall|i: int, j: int| 0 <= i < j < s.len() implies text::lex_less(
        #[trigger] s[i].key(),
        #[trigger] s[j].key(),
    ) by {
        lemma_lex_total(s[i].key(), s[j].key());
    }
}

/// A stable sort holds the entries of its input, and no others; where the
/// input's keys are unique, the output is strictly sorted.
pub proof fn lemma_stable_sort_entries<T: HasKey>(input: Seq<T>, output: Seq<T>)
    requires
        is_stable_sort(input, output),
    ensures
        forall|x: T| output.contains(x) == input.contains(x),
        unique_keys(input) ==> strictly_sorted(output),
{
    assert forall|x: T| output.contains(x) == input.contains(x) by {
        lemma_with_key_contains(input, x);
        lemma_with_key_contains(output, x);
    }
    if unique_keys(input) {
        assert forall|i: int, j: int| 0 <= i < j < output.len() implies #[trigger] output[i].key()
            != #[trigger] output[j].key() by {
            if output[i].key() == output[j].key() {
                lemma_two_with_key(output, i, j);
                assert(output.contains(output[i]));
                assert(input.contains(output[i]));
                let m = choose|m: int| 0 <= m < input.len() && input[m] == output[i];
                lemma_unique_with_key(input, m);
            }
        }
        lemma_sorted_unique_strict(output);
    }
}

/// Two entries with one key are both among the entries with that key.
proof fn lemma_two_with_key<T: HasKey>(s: Seq<T>, i: int, j: int)
    requires
        0 <= i < j < s.len(),
        s[i].key() == s[j].key(),
    ensures
        with_key(s, s[i].key()).len() >= 2,
{
    let k = s[i].key();
    let a = s.take(i + 1);
    let b = s.skip(i + 1);
    assert(s =~= a + b);
    lemma_append_with_key(a, b, k);
    assert(a[i] == s[i]);
    assert(b[j - i - 1] == s[j]);
    assert(a.contains(s[i]));
    assert(b.contains(s[j]));
    lemma_with_key_contains(a, s[i]);
    lemma_with_key_contains(b, s[j]);
}

/// A stable sort has as many entries as its input.
pub proof fn lemma_stable_sort_len<T: HasKey>(input: Seq<T>, output: Seq<T>)
    requires
        forall|k: Seq<int>| #[trigger] with_key(output, k) == with_key(input, k),
    ensures
        output.len() == input.len(),
    decreases input.len(),
{
    if input.len() == 0 {
        if output.len() > 0 {
            let k = output[0].key();
            lemma_no_such_key(input, k);
            assert(output.contains(output[0]));
            lemma_with_key_contains(output, output[0]);
        }
    } else {
        let x = input.last();
        let k0 = x.key();
        let rest = input.drop_last();
        assert(input =~= rest + seq![x]);
        assert forall|k: Seq<int>| with_key(input, k) == #[trigger] with_key(rest, k) + (if k0
            == k {
            seq![x]
        } else {
            seq![]
        }) by {
            lemma_append_with_key(rest, seq![x], k);
            lemma_single_with_key(x, k);
        }
        assert(with_key(output, k0).len() > 0) by {
            assert(with_key(input, k0) == with_key(rest, k0) + seq![x]);
        }
        let p = lemma_last_with_key(output, k0);
        assert(output[p] == x) by {
            assert(with_key(output, k0) == with_key(rest, k0) + seq![x]);
            assert((with_key(rest, k0) + seq![x]).last() == x);
        }
        let o = output.remove(p);
        assert forall|k: Seq<int>| #[trigger] with_key(o, k) == with_key(rest, k) by {
            assert(o =~= output.take(p) + output.skip(p + 1));
            assert(output =~= output.take(p) + seq![x] + output.skip(p + 1));
            lemma_append_with_key(output.take(p), output.skip(p + 1), k);
            lemma_append_with_key(output.take(p) + seq![x], output.skip(p + 1), k);
            lemma_append_with_key(output.take(p), seq![x], k);
            lemma_single_with_key(x, k);
            assert(with_key(output, k) == with_key(input, k));
            assert(with_key(input, k) == with_key(rest, k) + (if k0 == k {
                seq![x]
            } else {
                seq![]
            }));
            if k == k0 {
                assert forall|i: int|
                    0 <= i < output.skip(p + 1).len() implies (#[trigger] output.skip(p
                    + 1)[i]).key() != k by {
                    assert(output[p + 1 + i].key() != k0);
                }
                lemma_no_such_key(output.skip(p + 1), k);
                let a = with_key(output.take(p), k);
                let b = with_key(rest, k);
                assert(a + seq![x] + Seq::<T>::empty() =~= a + seq![x]);
                assert(a + seq![x] == b + seq![x]);
                assert((a + seq![x]).drop_last() =~= a);
                assert((b + seq![x]).drop_last() =~= b);
                assert(a + Seq::<T>::empty() =~= a);
            } else {
                let a = with_key(output.take(p), k);
                let c = with_key(output.skip(p + 1), k);
                assert(a + Seq::<T>::empty() + c =~= a + c);
                assert(with_key(rest, k) + Seq::<T>::empty() =~= with_key(rest, k));
            }
        }
        lemma_stable_sort_len(rest, o);
    }
}

/// The last entry with a key.
proof fn lemma_last_with_key<T: HasKey>(s: Seq<T>, k: Seq<int>) -> (p: int)
    requires
        with_key(s, k).len() > 0,
    ensures
        0 <= p < s.len(),
        s[p].key() == k,
        s[p] == with_key(s, k).last(),
        forall|i: int| p < i < s.len() ==> (#[trigger] s[i]).key() != k,
    decreases s.len(),
{
    reveal(Seq::filter);
    if s.last().key() == k {
        s.len() - 1
    } else {
        let p = lemma_last_with_key(s.drop_last(), k);
        assert forall|i: int| p < i < s.len() implies (#[trigger] s[i]).key() != k by {
            if i < s.len() - 1 {
                assert(s.drop_last()[i] == s[i]);
            }
        }
        p
    }
}

/// Where the input's keys are unique, collecting keeps every entry.
pub proof fn lemma_collected_entries<T: HasKey>(input: Seq<T>, output: Seq<T>)
    requires
        is_collected(input, output),
        unique_keys(input),
    ensures
        forall|x: T| output.contains(x) == input.contains(x),
{
    assert forall|x: T| output.contains(x) == input.contains(x) by {
        lemma_with_key_contains(input, x);
        lemma_with_key_contains(output, x);
        if input.contains(x) {
            let m = choose|m: int| 0 <= m < input.len() && input[m] == x;
            lemma_unique_with_key(input, m);
            assert(with_key(output, x.key()) == seq![x]);
            assert(seq![x][0] == x);
            assert(with_key(output, x.key()).contains(x));
        }
        if output.contains(x) {
            assert(with_key(output, x.key()).contains(x));
            let s = with_key(input, x.key());
            assert(s.len() > 0);
            assert(s.last() == x);
            assert(s.contains(x));
        }
    }
}

/// Appending an entry with a key of its own keeps the keys unique.
pub proof fn lemma_push_unique<T: HasKey>(s: Seq<T>, x: T)
    requires
        unique_keys(s),
        forall|i: int| 0 <= i < s.len() ==> (#[trigger] s[i]).key() != x.key(),
    ensures
        unique_keys(s.push(x)),
{
    let t = s.push(x);
    assert forall|i: int, j: int| 0 <= i < j < t.len() implies #[trigger] t[i].key()
        != #[trigger] t[j].key() by {
        assert(t[i] == s[i]);
        if j < s.len() {
            assert(t[j] == s[j]);
        }
    }
}

/// Replacing an entry by one with the same key keeps the keys unique.
pub proof fn lemma_update_unique<T: HasKey>(s: Seq<T>, i: int, x: T)
    requires
        unique_keys(s),
        0 <= i < s.len(),
        s[i].key() == x.key(),
    ensures
        unique_keys(s.update(i, x)),
{
    let t = s.update(i, x);
    assert forall|a: int, b: int| 0 <= a < b < t.len() implies #[trigger] t[a].key()
        != #[trigger] t[b].key() by {
        assert(t[a].key() == s[a].key());
        assert(t[b].key() == s[b].key());
    }
}

/// Removing an entry keeps the keys unique.
pub proof fn lemma_remove_unique<T: HasKey>(s: Seq<T>, i: int)
    requires
        unique_keys(s),
        0 <= i < s.len(),
    ensures
        unique_keys(s.remove(i)),
{
    let t = s.remove(i);
    assert forall|a: int, b: int| 0 <= a < b < t.len() implies #[trigger] t[a].key()
        != #[trigger] t[b].key() by {
        let x = if a < i { a } else { a + 1 };
        let y = if b < i { b } else { b + 1 };
        assert(t[a] == s[x]);
        assert(t[b] == s[y]);
    }
}

/// Thinning out keeps the keys unique.
pub proof fn lemma_filter_unique<T: HasKey>(s: Seq<T>, p: spec_fn(T) -> bool)
    requires
        unique_keys(s),
    ensures
        unique_keys(s.filter(p)),
        forall|i: int|
            0 <= i < s.filter(p).len() ==> s.contains(#[trigger] s.filter(p)[i]),
    decreases s.len(),
{
    reveal(Seq::filter);
    if s.len() > 0 {
        let d = s.drop_last();
        assert(unique_keys(d)) by {
            assert forall|a: int, b: int| 0 <= a < b < d.len() implies #[trigger] d[a].key()
                != #[trigger] d[b].key() by {
                assert(d[a] == s[a]);
                assert(d[b] == s[b]);
            }
        }
        lemma_filter_unique(d, p);
        let f = d.filter(p);
        assert forall|i: int| 0 <= i < f.len() implies s.contains(#[trigger] f[i]) && f[i].key()
            != s.last().key() by {
            assert(d.contains(f[i]));
            let m = choose|m: int| 0 <= m < d.len() && d[m] == f[i];
            assert(s[m] == f[i]);
            assert(s[m].key() != s[s.len() - 1].key());
        }
        if p(s.last()) {
            lemma_push_unique(f, s.last());
            assert(s[s.len() - 1] == s.last());
        }
    }
}

/// A stable sort of a list with unique keys has unique keys.
pub proof fn lemma_stable_sort_unique<T: HasKey>(input: Seq<T>, output: Seq<T>)
    requires
        is_stable_sort(input, output),
        unique_keys(input),
    ensures
        unique_keys(output),
{
    lemma_stable_sort_entries(input, output);
    lemma_strictly_sorted_unique(output);
}

/// One-number keys are ordered as the numbers are.
pub proof fn lemma_single_key_order(a: int, b: int)
    ensures
        text::lex_less(seq![a], seq![b]) == (a < b),
{
    assert(seq![a].drop_first() =~= Seq::<int>::empty());
    assert(seq![b].drop_first() =~= Seq::<int>::empty());
    reveal_with_fuel(text::lex_less, 2);
}

/// Two-number keys are ordered by the first number, then by the second.
pub proof fn lemma_pair_key_order(a: int, b: int, c: int, d: int)
    ensures
        text::lex_less(seq![a, b], seq![c, d]) == (a < c || (a == c && b < d)),
{
    assert(seq![a, b].drop_first() =~= seq![b]);
    assert(seq![c, d].drop_first() =~= seq![d]);
    lemma_single_key_order(b, d);
    assert(seq![a, b][0] == a);
    assert(seq![c, d][0] == c);
}

impl HasKey for u64 {
    open spec fn key(&self) -> Seq<int> {
        seq![*self as int]
    }
}

impl Keyed for u64 {
    fn precedes(&self, other: &Self) -> (r: bool) {
        proof {
            lemma_single_key_order(*self as int, *other as int);
        }
        *self < *other
    }
}

/// Two strictly sorted lists, each entry of one being like one of the other,
/// are alike entry by entry, where likeness keeps the key.
pub proof fn lemma_mirrors_strictly_sorted<T: HasKey>(
    a: Seq<T>,
    b: Seq<T>,
    like: spec_fn(T, T) -> bool,
)
    requires
        strictly_sorted(a),
        strictly_sorted(b),
        mirrors(a, b, like),
        forall|x: T, y: T| like(x, y) ==> #[trigger] x.key() == #[trigger] y.key(),
    ensures
        a.len() == b.len(),
        forall|i: int| 0 <= i < a.len() ==> like(#[trigger] a[i], b[i]),
    decreases a.len(),
{
    lemma_strictly_sorted_unique(a);
    lemma_strictly_sorted_unique(b);
    if a.len() == 0 {
        if b.len() > 0 {
            assert(is_like_of(a, b[0], like));
        }
    } else {
        assert(has_like(a[a.len() - 1], b, like));
        let j = choose|j: int| 0 <= j < b.len() && like(a[a.len() - 1], #[trigger] b[j]);
        let m = b.len() - 1;
        assert(is_like_of(a, b[m], like));
        let i = choose|i: int| 0 <= i < a.len() && like(#[trigger] a[i], b[m]);
        assert(a[i].key() == b[m].key());
        assert(a[a.len() - 1].key() == b[j].key());
        if j < m {
            assert(text::lex_less(b[j].key(), b[m].key()));
            assert(!text::lex_less(a[a.len() - 1].key(), a[i].key())) by {
                lemma_lex_irreflexive(a[i].key());
            }
        }
        assert(j == m);
        let a2 = a.drop_last();
        let b2 = b.drop_last();
        assert forall|p: int| 0 <= p < a2.len() implies has_like(#[trigger] a2[p], b2, like) by {
            assert(has_like(a[p], b, like));
            let q = choose|q: int| 0 <= q < b.len() && like(a[p], #[trigger] b[q]);
            if q == m {
                assert(a[p].key() == a[a.len() - 1].key());
            }
            assert(b2[q] == b[q]);
        }
        assert forall|q: int| 0 <= q < b2.len() implies is_like_of(a2, #[trigger] b2[q], like) by {
            assert(is_like_of(a, b[q], like));
            let p = choose|p: int| 0 <= p < a.len() && like(#[trigger] a[p], b[q]);
            if p == a.len() - 1 {
                assert(b[q].key() == b[m].key());
            }
            assert(a2[p] == a[p]);
        }
        lemma_mirrors_strictly_sorted(a2, b2, like);
        assert forall|p: int| 0 <= p < a.len() implies like(#[trigger] a[p], b[p]) by {
            if p < a2.len() {
                assert(like(a2[p], b2[p]));
            }
        }
    }
}

/// Sorting commutes with a change of the entries that keeps their keys.
pub proof fn lemma_map_with_key<A: HasKey, B: HasKey>(s: Seq<A>, f: spec_fn(A) -> B, k: Seq<int>)
    requires
        forall|x: A| f(x).key() == #[trigger] x.key(),
    ensures
        with_key(s.map_values(f), k) == with_key(s, k).map_values(f),
    decreases s.len(),
{
    reveal(Seq::filter);
    if s.len() > 0 {
        lemma_map_with_key(s.drop_last(), f, k);
        assert(s.map_values(f).drop_last() =~= s.drop_last().map_values(f));
        assert(s.last().key() == f(s.last()).key());
        assert(with_key(s.map_values(f), k) =~= with_key(s, k).map_values(f));
    } else {
        assert(s.map_values(f) =~= Seq::<B>::empty());
        assert(with_key(s.map_values(f), k) =~= with_key(s, k).map_values(f));
    }
}

pub proof fn lemma_map_stable_sort<A: HasKey, B: HasKey>(
    input: Seq<A>,
    output: Seq<A>,
    f: spec_fn(A) -> B,
)
    requires
        is_stable_sort(input, output),
        forall|x: A| f(x).key() == #[trigger] x.key(),
    ensures
        is_stable_sort(input.map_values(f), output.map_values(f)),
{
    let o = output.map_values(f);
    assert forall|k: Seq<int>| #[trigger]
        with_key(o, k) == with_key(input.map_values(f), k) by {
        lemma_map_with_key(input, f, k);
        lemma_map_with_key(output, f, k);
        assert(with_key(output, k) == with_key(input, k));
    }
    assert forall|i: int, j: int| 0 <= i < j < o.len() implies !text::lex_less(
        #[trigger] o[j].key(),
        #[trigger] o[i].key(),
    ) by {
        assert(output[i].key() == o[i].key());
        assert(output[j].key() == o[j].key());
    }
}

pub proof fn lemma_map_collected<A: HasKey, B: HasKey>(
    input: Seq<A>,
    output: Seq<A>,
    f: spec_fn(A) -> B,
)
    requires
        is_collected(input, output),
        forall|x: A| f(x).key() == #[trigger] x.key(),
    ensures
        is_collected(input.map_values(f), output.map_values(f)),
{
    let o = output.map_values(f);
    assert forall|k: Seq<int>| #[trigger]
        with_key(o, k) == last_only(with_key(input.map_values(f), k)) by {
        lemma_map_with_key(input, f, k);
        lemma_map_with_key(output, f, k);
        assert(with_key(output, k) == last_only(with_key(input, k)));
        assert(last_only(with_key(input, k)).map_values(f) =~= last_only(
            with_key(input, k).map_values(f),
        ));
    }
    assert forall|i: int, j: int| 0 <= i < j < o.len() implies text::lex_less(
        #[trigger] o[i].key(),
        #[trigger] o[j].key(),
    ) by {
        assert(output[i].key() == o[i].key());
        assert(output[j].key() == o[j].key());
    }
}

/// Two lists with unique keys and the same entries have the same entries with
/// each key.
pub proof fn lemma_same_entries_with_key<T: HasKey>(a: Seq<T>, b: Seq<T>, k: Seq<int>)
    requires
        unique_keys(a),
        unique_keys(b),
        forall|x: T| a.contains(x) == b.contains(x),
    ensures
        with_key(a, k) == with_key(b, k),
{
    if exists|i: int| 0 <= i < a.len() && (#[trigger] a[i]).key() == k {
        let i = choose|i: int| 0 <= i < a.len() && (#[trigger] a[i]).key() == k;
        lemma_unique_with_key(a, i);
        assert(a.contains(a[i]));
        assert(b.contains(a[i]));
        let j = choose|j: int| 0 <= j < b.len() && b[j] == a[i];
        lemma_unique_with_key(b, j);
    } else {
        lemma_no_such_key(a, k);
        assert forall|j: int| 0 <= j < b.len() implies (#[trigger] b[j]).key() != k by {
            assert(b.contains(b[j]));
            assert(a.contains(b[j]));
            let i = choose|i: int| 0 <= i < a.len() && a[i] == b[j];
            assert(a[i].key() != k);
        }
        lemma_no_such_key(b, k);
    }
}

/// A stable sort of a strictly sorted list is that list.
pub proof fn lemma_sort_of_sorted<T: HasKey>(input: Seq<T>, output: Seq<T>)
    requires
        strictly_sorted(input),
        is_stable_sort(input, output),
    ensures
        output == input,
{
    lemma_strictly_sorted_unique(input);
    lemma_stable_sort_entries(input, output);
    let like = |x: T, y: T| x == y;
    assert forall|i: int| 0 <= i < input.len() implies has_like(#[trigger] input[i], output, like) by {
        assert(input.contains(input[i]));
        let j = choose|j: int| 0 <= j < output.len() && output[j] == input[i];
        assert(like(input[i], output[j]));
    }
    assert forall|j: int| 0 <= j < output.len() implies is_like_of(input, #[trigger] output[j], like) by {
        assert(output.contains(output[j]));
        let i = choose|i: int| 0 <= i < input.len() && input[i] == output[j];
        assert(like(input[i], output[j]));
    }
    lemma_mirrors_strictly_sorted(input, output, like);
    assert forall|i: int| 0 <= i < input.len() implies input[i] == output[i] by {
        assert(like(input[i], output[i]));
    }
    assert(output =~= input);
}

/// A list with unique keys that is collected under other keys (by `f`) and
/// then taken back (by `g`) and sorted comes out sorted.
pub proof fn lemma_section_round_trip<T: HasKey, P: HasKey>(
    src: Seq<T>,
    f: spec_fn(T) -> P,
    g: spec_fn(P) -> T,
    kept: Seq<P>,
    back: Seq<T>,
)
    requires
        unique_keys(src),
        is_collected(src.map_values(f), kept),
        is_stable_sort(kept.map_values(g), back),
        forall|t: T| g(#[trigger] f(t)) == t,
        forall|t: T, u: T|
            (#[trigger] f(t)).key() == (#[trigger] f(u)).key() ==> t.key() == u.key(),
    ensures
        is_stable_sort(src, back),
        strictly_sorted(src) ==> back == src,
{
    let m = src.map_values(f);
    assert(unique_keys(m)) by {
        assert forall|i: int, j: int| 0 <= i < j < m.len() implies #[trigger] m[i].key()
            != #[trigger] m[j].key() by {
            assert(m[i] == f(src[i]));
            assert(m[j] == f(src[j]));
            assert(src[i].key() != src[j].key());
        }
    }
    lemma_collected_entries(m, kept);
    lemma_strictly_sorted_unique(kept);
    let r = kept.map_values(g);
    assert forall|a: int| 0 <= a < kept.len() implies exists|i: int|
        0 <= i < src.len() && #[trigger] kept[a] == f(src[i]) && #[trigger] src[i] == r[a] by {
        assert(kept.contains(kept[a]));
        assert(m.contains(kept[a]));
        let i = choose|i: int| 0 <= i < m.len() && m[i] == kept[a];
        assert(kept[a] == f(src[i]));
        assert(src[i] == r[a]);
    }
    assert(unique_keys(r)) by {
        assert forall|a: int, b: int| 0 <= a < b < r.len() implies #[trigger] r[a].key()
            != #[trigger] r[b].key() by {
            assert(kept[a] == kept[a] && kept[b] == kept[b]);
            let i = choose|i: int|
                0 <= i < src.len() && kept[a] == f(src[i]) && #[trigger] src[i] == r[a];
            let j = choose|j: int|
                0 <= j < src.len() && kept[b] == f(src[j]) && #[trigger] src[j] == r[b];
            assert(kept[a].key() != kept[b].key());
            if r[a].key() == r[b].key() {
                assert(i == j);
            }
        }
    }
    assert forall|x: T| r.contains(x) == src.contains(x) by {
        if src.contains(x) {
            let i = choose|i: int| 0 <= i < src.len() && src[i] == x;
            assert(m[i] == f(x));
            assert(m.contains(f(x)));
            assert(kept.contains(f(x)));
            let a = choose|a: int| 0 <= a < kept.len() && kept[a] == f(x);
            assert(r[a] == x);
        }
        if r.contains(x) {
            let a = choose|a: int| 0 <= a < r.len() && r[a] == x;
            assert(r[a] == g(kept[a]));
            let i = choose|i: int|
                0 <= i < src.len() && kept[a] == f(src[i]) && #[trigger] src[i] == r[a];
            assert(src[i] == x);
        }
    }
    assert forall|k: Seq<int>| #[trigger] with_key(back, k) == with_key(src, k) by {
        assert(with_key(back, k) == with_key(r, k));
        lemma_same_entries_with_key(r, src, k);
    }
    assert(is_stable_sort(src, back));
    if strictly_sorted(src) {
        lemma_sort_of_sorted(src, back);
    }
}

/// The index at which an entry with the key of `x` belongs: behind all
/// entries with smaller keys.
fn lower_bound<T: Keyed>(v: &Vec<T>, x: &T) -> (p: usize)
    requires
        sorted(v@),
    ensures
        p <= v@.len(),
        forall|i: int| 0 <= i < p ==> text::lex_less((#[trigger] v@[i]).key(), x.key()),
        forall|i: int| p <= i < v@.len() ==> !text::lex_less((#[trigger] v@[i]).key(), x.key()),
{
    let mut p: usize = 0;
    while p < v.len() && v[p].precedes(x)
        invariant
            p <= v@.len(),
            forall|i: int| 0 <= i < p ==> text::lex_less((#[trigger] v@[i]).key(), x.key()),
        decreases v@.len() - p,
    {
        p = p + 1;
    }
    proof {
        assert forall|i: int| p <= i < v@.len() implies !text::lex_less(
            (#[trigger] v@[i]).key(),
            x.key(),
        ) by {
            let f = v@[p as int].key();
            assert(!text::lex_less(f, x.key()));
            if i > p && text::lex_less(v@[i].key(), x.key()) {
                assert(!text::lex_less(v@[i].key(), f));
                lemma_lex_le_less(f, v@[i].key(), x.key());
            }
        }
    }
    p
}

/// Moving `x` from the end of `v` to its place in `o` keeps, read one after
/// the other, the entries with each key.
proof fn lemma_move_entry<T: HasKey>(v: Seq<T>, o: Seq<T>, p: int, x: T, k: Seq<int>)
    requires
        0 <= p <= o.len(),
        forall|i: int| 0 <= i < p ==> text::lex_less((#[trigger] o[i]).key(), x.key()),
    ensures
        with_key(v + seq![x], k) + with_key(o, k) == with_key(v, k) + with_key(o.insert(p, x), k),
{
    lemma_append_with_key(v, seq![x], k);
    lemma_insert_with_key(o, p, x, k);
    lemma_single_with_key(x, k);
    if x.key() == k {
        assert forall|i: int| 0 <= i < o.take(p).len() implies (#[trigger] o.take(p)[i]).key()
            != k by {
            assert(text::lex_less(o[i].key(), k));
            lemma_lex_irreflexive(k);
        }
        lemma_no_such_key(o.take(p), k);
    }
    assert(with_key(v + seq![x], k) + with_key(o, k) =~= with_key(v, k) + with_key(
        o.insert(p, x),
        k,
    ));
}

/// Sorts the entries of `v` by key, stably.
pub fn stable_sort<T: Keyed>(v: Vec<T>) -> (out: Vec<T>)
    ensures
        is_stable_sort(v@, out@),
{
    let ghost all = v@;
    let mut v = v;
    let mut out: Vec<T> = Vec::new();
    proof {
        assert forall|k: Seq<int>| #[trigger] with_key(all, k) == with_key(v@, k) + with_key(
            out@,
            k,
        ) by {
            lemma_no_such_key(out@, k);
            assert(with_key(v@, k) + Seq::<T>::empty() =~= with_key(v@, k));
        }
    }
    while v.len() > 0
        invariant
            sorted(out@),
            forall|k: Seq<int>| #[trigger] with_key(all, k) == with_key(v@, k) + with_key(out@, k),
        decreases v@.len(),
    {
        let ghost before = v@;
        let ghost o = out@;
        let x = v.pop().unwrap();
        let p = lower_bound(&out, &x);
        out.insert(p, x);
        proof {
            assert(before =~= v@ + seq![x]);
            assert forall|k: Seq<int>| #[trigger] with_key(all, k) == with_key(v@, k) + with_key(
                out@,
                k,
            ) by {
                assert(with_key(all, k) == with_key(before, k) + with_key(o, k));
                lemma_move_entry(v@, o, p as int, x, k);
            }
            lemma_insert_sorted(o, p as int, x);
        }
    }
    proof {
        assert forall|k: Seq<int>| #[trigger] with_key(out@, k) == with_key(all, k) by {
            assert(with_key(all, k) == with_key(v@, k) + with_key(out@, k));
            lemma_no_such_key(v@, k);
            assert(Seq::<T>::empty() + with_key(out@, k) =~= with_key(out@, k));
        }
    }
    out
}

proof fn lemma_insert_sorted<T: HasKey>(o: Seq<T>, p: int, x: T)
    requires
        sorted(o),
        0 <= p <= o.len(),
        forall|i: int| 0 <= i < p ==> text::lex_less((#[trigger] o[i]).key(), x.key()),
        forall|i: int| p <= i < o.len() ==> !text::lex_less((#[trigger] o[i]).key(), x.key()),
    ensures
        sorted(o.insert(p, x)),
{
    let r = o.insert(p, x);
    assert forall|i: int, j: int| 0 <= i < j < r.len() implies !text::lex_less(
        #[trigger] r[j].key(),
        #[trigger] r[i].key(),
    ) by {
        if j == p {
            assert(r[i] == o[i]);
            if text::lex_less(x.key(), o[i].key()) {
                lemma_lex_transitive(x.key(), o[i].key(), x.key());
                lemma_lex_irreflexive(x.key());
            }
        } else if i == p {
            assert(r[j] == o[j - 1]);
        } else {
            let oi = if i < p { i } else { i - 1 };
            let oj = if j < p { j } else { j - 1 };
            assert(r[i] == o[oi]);
            assert(r[j] == o[oj]);
        }
    }
}

/// Sorts the entries of `v` by key, keeping the last entry of each key.
pub fn collect_sorted<T: Keyed>(v: Vec<T>) -> (out: Vec<T>)
    ensures
        is_collected(v@, out@),
{
    let ghost all = v@;
    let mut v = v;
    let mut out: Vec<T> = Vec::new();
    assert(all.skip(all.len() as int) =~= Seq::<T>::empty());
    proof {
        assert forall|k: Seq<int>| #[trigger] with_key(out@, k) == last_only(
            with_key(all.skip(v@.len() as int), k),
        ) by {
            lemma_no_such_key(out@, k);
            lemma_no_such_key(all.skip(v@.len() as int), k);
        }
    }
    while v.len() > 0
        invariant
            v@.len() <= all.len(),
            v@ == all.take(v@.len() as int),
            strictly_sorted(out@),
            forall|k: Seq<int>| #[trigger]
                with_key(out@, k) == last_only(with_key(all.skip(v@.len() as int), k)),
        decreases v@.len(),
    {
        let ghost rest = all.skip(v@.len() as int);
        let ghost o = out@;
        let x = v.pop().unwrap();
        proof {
            lemma_strictly_sorted_unique(o);
            assert(all.skip(v@.len() as int) =~= seq![x] + rest);
            assert(v@ =~= all.take(v@.len() as int));
        }
        let p = lower_bound(&out, &x);
        let ghost next = seq![x] + rest;
        proof {
            assert forall|k: Seq<int>| with_key(next, k) == (if x.key() == k {
                seq![x]
            } else {
                seq![]
            }) + #[trigger] with_key(rest, k) by {
                lemma_append_with_key(seq![x], rest, k);
                lemma_single_with_key(x, k);
            }
        }
        if p < out.len() && !x.precedes(&out[p]) {
            proof {
                lemma_lex_total(x.key(), o[p as int].key());
                assert(x.key() == o[p as int].key());
                lemma_unique_with_key(o, p as int);
                assert forall|k: Seq<int>| #[trigger]
                    with_key(out@, k) == last_only(with_key(next, k)) by {
                    assert(with_key(o, k) == last_only(with_key(rest, k)));
                    if k == x.key() {
                        assert(with_key(rest, k).len() > 0);
                        assert((seq![x] + with_key(rest, k)).last() == with_key(rest, k).last());
                    } else {
                        assert(Seq::<T>::empty() + with_key(rest, k) =~= with_key(rest, k));
                    }
                }
            }
        } else {
            out.insert(p, x);
            proof {
                lemma_insert_sorted(o, p as int, x);
                assert forall|i: int| 0 <= i < o.len() implies (#[trigger] o[i]).key()
                    != x.key() by {
                    if i < p {
                        lemma_lex_irreflexive(x.key());
                    } else {
                        assert(text::lex_less(x.key(), o[p as int].key()));
                        if i > p {
                            lemma_lex_transitive(x.key(), o[p as int].key(), o[i].key());
                        }
                        lemma_lex_irreflexive(x.key());
                    }
                }
                assert forall|k: Seq<int>| #[trigger]
                    with_key(out@, k) == last_only(with_key(next, k)) by {
                    lemma_insert_with_key(o, p as int, x, k);
                    lemma_single_with_key(x, k);
                    assert(with_key(o, k) == last_only(with_key(rest, k)));
                    if k == x.key() {
                        lemma_no_such_key(o, k);
                        assert(with_key(rest, k) =~= Seq::<T>::empty());
                        assert(with_key(o.take(p as int), k) =~= Seq::<T>::empty());
                        assert(with_key(o.skip(p as int), k) =~= Seq::<T>::empty());
                        assert(with_key(out@, k) =~= seq![x]);
                        assert(with_key(next, k) =~= seq![x]);
                    } else {
                        assert(Seq::<T>::empty() + with_key(rest, k) =~= with_key(rest, k));
                        assert(with_key(out@, k) =~= with_key(o, k));
                    }
                }
                assert(unique_keys(out@)) by {
                    assert forall|i: int, j: int| 0 <= i < j < out@.len() implies
                        #[trigger] out@[i].key() != #[trigger] out@[j].key() by {
                        if i == p {
                            assert(out@[j] == o[j - 1]);
                        } else if j == p {
                            assert(out@[i] == o[i]);
                        } else {
                            let oi = if i < p { i } else { i - 1 };
                            let oj = if j < p { j } else { j - 1 };
                            assert(out@[i] == o[oi]);
                            assert(out@[j] == o[oj]);
                        }
                    }
                }
                lemma_sorted_unique_strict(out@);
            }
        }
    }
    assert(all.skip(0) =~= all);
    out
}

/// What is sorted has its keys in ascending order, and no key is lost or made
/// up: numbers are compared as numbers.
pub proof fn lemma_sorted_numbers(input: Seq<u64>, output: Seq<u64>, i: int, j: int)
    requires
        is_stable_sort(input, output),
        0 <= i < j < output.len(),
    ensures
        output[i] <= output[j],
        input.contains(output[i]),
{
    lemma_stable_sort_entries(input, output);
    lemma_single_key_order(output[j] as int, output[i] as int);
    assert(!text::lex_less(output[j].key(), output[i].key()));
}

} // verus!

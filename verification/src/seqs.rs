//! Searching sequences and lists of key-value pairs.

use vstd::prelude::*;

verus! {

/// The first element of `s` for which `p` holds.
pub open spec fn first_match<T>(s: Seq<T>, p: spec_fn(T) -> bool) -> Option<T>
    decreases s.len(),
{
    if s.len() == 0 {
        None
    } else if p(s[0]) {
        Some(s[0])
    } else {
        first_match(s.drop_first(), p)
    }
}

/// Skipping elements for which `p` fails does not change the first match.
pub proof fn lemma_first_match_skip<T>(s: Seq<T>, p: spec_fn(T) -> bool, i: int)
    requires
        0 <= i <= s.len(),
        forall|k: int| 0 <= k < i ==> !p(#[trigger] s[k]),
    ensures
        first_match(s, p) == first_match(s.subrange(i, s.len() as int), p),
    decreases i,
{
    if i == 0 {
        assert(s.subrange(0, s.len() as int) =~= s);
    } else {
        assert(!p(s[0]));
        lemma_first_match_skip(s.drop_first(), p, i - 1);
        assert(s.drop_first().subrange(i - 1, s.drop_first().len() as int) =~= s.subrange(i, s.len() as int));
    }
}

/// Where `p` holds of `s[i]` and of nothing before, `s[i]` is the first match.
pub proof fn lemma_first_match_at<T>(s: Seq<T>, p: spec_fn(T) -> bool, i: int)
    requires
        0 <= i < s.len(),
        forall|k: int| 0 <= k < i ==> !p(#[trigger] s[k]),
        p(s[i]),
    ensures
        first_match(s, p) == Some(s[i]),
{
    lemma_first_match_skip(s, p, i);
    assert(s.subrange(i, s.len() as int)[0] == s[i]);
}

/// Where `p` holds of nothing, there is no match.
pub proof fn lemma_first_match_none<T>(s: Seq<T>, p: spec_fn(T) -> bool)
    requires
        forall|k: int| 0 <= k < s.len() ==> !p(#[trigger] s[k]),
    ensures
        first_match(s, p) is None,
{
    lemma_first_match_skip(s, p, s.len() as int);
}

/// Whether a pair has key `k`.
pub open spec fn key_is<K, V>(k: K) -> spec_fn((K, V)) -> bool {
    |p: (K, V)| p.0 == k
}

/// The value of the first pair with key `k`.
pub open spec fn pair_get<K, V>(s: Seq<(K, V)>, k: K) -> Option<V> {
    match first_match(s, key_is(k)) {
        Some(p) => Some(p.1),
        None => None,
    }
}

/// Filtering a sequence with one more element.
pub proof fn lemma_filter_push<A>(s: Seq<A>, p: spec_fn(A) -> bool, x: A)
    ensures
        s.push(x).filter(p) == if p(x) { s.filter(p).push(x) } else { s.filter(p) },
{
    reveal(Seq::filter);
    assert(s.push(x).drop_last() =~= s);
}

/// Filtering an empty sequence.
pub proof fn lemma_filter_empty<A>(s: Seq<A>, p: spec_fn(A) -> bool)
    requires
        s.len() == 0,
    ensures
        s.filter(p) == Seq::<A>::empty(),
{
    reveal(Seq::filter);
    assert(s =~= Seq::<A>::empty());
}

/// A prefix holds no item more often than the whole sequence does.
pub proof fn lemma_take_multiset<A>(s: Seq<A>, k: int)
    requires
        0 <= k <= s.len(),
    ensures
        s.take(k).to_multiset().subset_of(s.to_multiset()),
    decreases s.len() - k,
{
    broadcast use vstd::seq_lib::group_to_multiset_ensures;
    if k < s.len() {
        lemma_take_multiset(s, k + 1);
        assert(s.take(k + 1) =~= s.take(k).push(s[k]));
        assert(s.take(k + 1).to_multiset() =~= s.take(k).to_multiset().insert(s[k]));
        assert forall|v: A| s.take(k).to_multiset().count(v) <= s.to_multiset().count(v) by {
            assert(s.take(k).to_multiset().count(v) <= s.take(k + 1).to_multiset().count(v));
            assert(s.take(k + 1).to_multiset().count(v) <= s.to_multiset().count(v));
        }
    } else {
        assert(s.take(k) =~= s);
    }
}

} // verus!

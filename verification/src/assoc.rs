//! Association lists keyed by text: a vector of (key, value) pairs read as a
//! map in which a later pair overrides an earlier one with the same key.
use vstd::prelude::*;

verus! {

/// The map that `v` stands for, each value seen through `f`.
pub open spec fn assoc_map<V, W>(v: Seq<(String, V)>, f: spec_fn(V) -> W) -> Map<Seq<char>, W>
    decreases v.len(),
{
    if v.len() == 0 {
        Map::empty()
    } else {
        assoc_map(v.drop_last(), f).insert(v.last().0@, f(v.last().1))
    }
}

/// `j` is the last position of `v` whose key is `k`.
pub open spec fn is_last_key<V>(v: Seq<(String, V)>, k: Seq<char>, j: int) -> bool {
    &&& 0 <= j < v.len()
    &&& v[j].0@ == k
    &&& forall|i: int| j < i < v.len() ==> (#[trigger] v[i]).0@ != k
}

/// No pair of `v` has the key `k`.
pub open spec fn no_key<V>(v: Seq<(String, V)>, k: Seq<char>) -> bool {
    forall|i: int| 0 <= i < v.len() ==> (#[trigger] v[i]).0@ != k
}

/// Pairs past `n` without the key `k` do not change what `k` maps to.
pub proof fn lemma_assoc_tail<V, W>(v: Seq<(String, V)>, f: spec_fn(V) -> W, k: Seq<char>, n: int)
    requires
        0 <= n <= v.len(),
        forall|i: int| n <= i < v.len() ==> (#[trigger] v[i]).0@ != k,
    ensures
        assoc_map(v, f).dom().contains(k) == assoc_map(v.take(n), f).dom().contains(k),
        assoc_map(v, f).dom().contains(k) ==> assoc_map(v, f)[k] == assoc_map(v.take(n), f)[k],
    decreases v.len(),
{
    if v.len() == n {
        assert(v.take(n) =~= v);
    } else {
        assert(v.drop_last().take(n) =~= v.take(n));
        assert(v[v.len() - 1].0@ != k);
        lemma_assoc_tail(v.drop_last(), f, k, n);
    }
}

/// What the last pair with key `k` says is what the map says of `k`; with no
/// such pair, the map does not hold `k`.
pub proof fn lemma_assoc_lookup<V, W>(v: Seq<(String, V)>, f: spec_fn(V) -> W, k: Seq<char>)
    ensures
        forall|j: int|
            is_last_key(v, k, j) ==> assoc_map(v, f).dom().contains(k) && assoc_map(v, f)[k] == f(
                v[j].1,
            ),
        no_key(v, k) ==> !assoc_map(v, f).dom().contains(k),
{
    assert forall|j: int| is_last_key(v, k, j) implies assoc_map(v, f).dom().contains(k)
        && assoc_map(v, f)[k] == f(v[j].1) by {
        lemma_assoc_tail(v, f, k, j + 1);
        assert(v.take(j + 1).drop_last() =~= v.take(j));
        assert(v.take(j + 1).last() == v[j]);
    }
    if no_key(v, k) {
        lemma_assoc_tail(v, f, k, 0);
        assert(v.take(0).len() == 0);
    }
}

/// Keys of `v` are in the map, and only they.
pub proof fn lemma_assoc_dom<V, W>(v: Seq<(String, V)>, f: spec_fn(V) -> W, k: Seq<char>)
    ensures
        assoc_map(v, f).dom().contains(k) <==> exists|i: int| 0 <= i < v.len() && (#[trigger] v[i]).0@ == k,
    decreases v.len(),
{
    if v.len() > 0 {
        lemma_assoc_dom(v.drop_last(), f, k);
        if exists|i: int| 0 <= i < v.len() && (#[trigger] v[i]).0@ == k {
            let i = choose|i: int| 0 <= i < v.len() && (#[trigger] v[i]).0@ == k;
            if i < v.len() - 1 {
                assert(v.drop_last()[i] == v[i]);
            }
        }
        if assoc_map(v.drop_last(), f).dom().contains(k) {
            let i = choose|i: int| 0 <= i < v.drop_last().len() && (#[trigger] v.drop_last()[i]).0@ == k;
            assert(v[i] == v.drop_last()[i]);
        }
    }
}

/// The last position of `v` whose key is `k`, if any.
pub fn last_key<V>(v: &Vec<(String, V)>, k: &String) -> (r: Option<usize>)
    ensures
        match r {
            Some(j) => is_last_key(v@, k@, j as int),
            None => no_key(v@, k@),
        },
{
    let mut j: usize = v.len();
    while j > 0
        invariant
            j <= v.len(),
            forall|i: int| j <= i < v@.len() ==> (#[trigger] v@[i]).0@ != k@,
        decreases j,
    {
        if v[j - 1].0 == *k {
            return Some(j - 1);
        }
        j = j - 1;
    }
    None
}

} // verus!

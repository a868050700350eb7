//! Association-list reasoning shared by the per-peer state tables: a table
//! is a vector of key-value pairs whose keys are pairwise distinct, and the
//! lemmas here let an in-place update or a push be read as a map update.

use vstd::prelude::*;

verus! {

/// Each key appears at most once in `s`.
pub open spec fn unique_keys<K, V>(s: Seq<(K, V)>) -> bool {
    forall|i: int, j: int| 0 <= i < j < s.len() ==> (#[trigger] s[i]).0 != (#[trigger] s[j]).0
}

/// Whether some entry of `s` carries key `b`.
pub open spec fn has_key<K, V>(s: Seq<(K, V)>, b: K) -> bool {
    exists|i: int| 0 <= i < s.len() && (#[trigger] s[i]).0 == b
}

/// The index of the entry carrying key `b`.
pub open spec fn key_idx<K, V>(s: Seq<(K, V)>, b: K) -> int {
    choose|i: int| 0 <= i < s.len() && (#[trigger] s[i]).0 == b
}

/// In a table with unique keys, the entry found at `i` is the entry that
/// lookups name.
pub proof fn lemma_key_idx_is<K, V>(s: Seq<(K, V)>, i: int, key: K)
    requires
        unique_keys(s),
        0 <= i < s.len(),
        s[i].0 == key,
    ensures
        has_key(s, key),
        key_idx(s, key) == i,
{
    assert(has_key(s, key));
    let j = key_idx(s, key);
    assert(s[j].0 == key);
    if j < i {
        assert(s[j].0 != s[i].0);
    } else if i < j {
        assert(s[i].0 != s[j].0);
    }
}

/// After updating the entry at `i` in place, lookups behave as a map update.
pub proof fn lemma_lookup_after_update<K, V>(
    pre: Seq<(K, V)>,
    post: Seq<(K, V)>,
    i: int,
    key: K,
    value: V,
)
    requires
        unique_keys(pre),
        0 <= i < pre.len(),
        pre[i].0 == key,
        post == pre.update(i, (key, value)),
    ensures
        unique_keys(post),
        has_key(post, key),
        key_idx(post, key) == i,
        forall|b: K| b != key ==> #[trigger] has_key(post, b) == has_key(pre, b),
        forall|k: int| 0 <= k < post.len() && post[k].0 != key ==> post[k] == pre[k],
{
    assert(post[i].0 == key);
    assert(unique_keys(post)) by {
        assert(forall|k: int| 0 <= k < post.len() && k != i ==> (#[trigger] post[k]) == pre[k]);
    }
    lemma_key_idx_is(post, i, key);
    assert forall|b: K| b != key implies #[trigger] has_key(post, b) == has_key(pre, b) by {
        if has_key(post, b) {
            let k = key_idx(post, b);
            assert(post[k].0 == b);
            assert(pre[k].0 == b);
        }
        if has_key(pre, b) {
            let k = key_idx(pre, b);
            assert(pre[k].0 == b);
            assert(post[k].0 == b);
        }
    }
}

/// After pushing a fresh entry, lookups behave as a map insert.
pub proof fn lemma_lookup_after_push<K, V>(pre: Seq<(K, V)>, post: Seq<(K, V)>, key: K, value: V)
    requires
        unique_keys(pre),
        forall|k: int| 0 <= k < pre.len() ==> (#[trigger] pre[k]).0 != key,
        post == pre.push((key, value)),
    ensures
        unique_keys(post),
        has_key(post, key),
        key_idx(post, key) == pre.len(),
        forall|b: K| b != key ==> #[trigger] has_key(post, b) == has_key(pre, b),
        forall|k: int| 0 <= k < post.len() && post[k].0 != key ==> post[k] == pre[k],
{
    assert(post[pre.len() as int].0 == key);
    assert(unique_keys(post)) by {
        assert(forall|k: int| 0 <= k < pre.len() ==> (#[trigger] post[k]) == pre[k]);
    }
    lemma_key_idx_is(post, pre.len() as int, key);
    assert forall|b: K| b != key implies #[trigger] has_key(post, b) == has_key(pre, b) by {
        if has_key(post, b) {
            let k = key_idx(post, b);
            assert(post[k].0 == b);
            assert(k < pre.len());
            assert(pre[k].0 == b);
        }
        if has_key(pre, b) {
            let k = key_idx(pre, b);
            assert(pre[k].0 == b);
            assert(post[k].0 == b);
        }
    }
}

/// After removing the entry at `i`, its key is gone and lookups of other
/// keys are unchanged.
pub proof fn lemma_lookup_after_remove<K, V>(pre: Seq<(K, V)>, post: Seq<(K, V)>, i: int)
    requires
        unique_keys(pre),
        0 <= i < pre.len(),
        post == pre.remove(i),
    ensures
        unique_keys(post),
        !has_key(post, pre[i].0),
        forall|b: K| b != pre[i].0 ==> #[trigger] has_key(post, b) == has_key(pre, b),
        forall|b: K|
            b != pre[i].0 && #[trigger] has_key(pre, b) ==> post[key_idx(post, b)] == pre[key_idx(
                pre,
                b,
            )],
{
    let key = pre[i].0;
    assert(unique_keys(post)) by {
        assert forall|p: int, q: int|
            0 <= p < q < post.len() implies (#[trigger] post[p]).0 != (#[trigger] post[q]).0 by {
            let p0 = if p < i {
                p
            } else {
                p + 1
            };
            let q0 = if q < i {
                q
            } else {
                q + 1
            };
            assert(post[p] == pre[p0]);
            assert(post[q] == pre[q0]);
        }
    }
    if has_key(post, key) {
        let k = key_idx(post, key);
        assert(post[k].0 == key);
        let k0 = if k < i {
            k
        } else {
            k + 1
        };
        assert(post[k] == pre[k0]);
        assert(k0 != i);
        if k0 < i {
            assert(pre[k0].0 != pre[i].0);
        } else {
            assert(pre[i].0 != pre[k0].0);
        }
    }
    assert forall|b: K| b != key && #[trigger] has_key(pre, b) implies has_key(post, b)
        && post[key_idx(post, b)] == pre[key_idx(pre, b)] by {
        let k = key_idx(pre, b);
        assert(pre[k].0 == b);
        assert(k != i);
        let k1 = if k < i {
            k
        } else {
            k - 1
        };
        assert(post[k1] == pre[k]);
        lemma_key_idx_is(post, k1, b);
    }
    assert forall|b: K| b != key && has_key(post, b) implies has_key(pre, b) by {
        let k = key_idx(post, b);
        assert(post[k].0 == b);
        let k0 = if k < i {
            k
        } else {
            k + 1
        };
        assert(post[k] == pre[k0]);
        assert(pre[k0].0 == b);
    }
}

/// One step of filtering a prefix: taking one more element extends the
/// filtered prefix exactly when the element passes.
pub proof fn lemma_filter_take_step<A>(s: Seq<A>, pred: spec_fn(A) -> bool, i: int)
    requires
        0 <= i < s.len(),
    ensures
        pred(s[i]) ==> s.take(i + 1).filter(pred) == s.take(i).filter(pred).push(s[i]),
        !pred(s[i]) ==> s.take(i + 1).filter(pred) == s.take(i).filter(pred),
{
    reveal(Seq::filter);
    let t1 = s.take(i + 1);
    assert(t1.len() == i + 1);
    assert(t1.drop_last() =~= s.take(i));
    assert(t1.last() == s[i]);
}

/// Every element of a filtered sequence comes from the sequence itself.
pub proof fn lemma_filter_in_source<A>(s: Seq<A>, pred: spec_fn(A) -> bool)
    ensures
        forall|j: int|
            0 <= j < s.filter(pred).len() ==> s.contains(#[trigger] s.filter(pred)[j]),
    decreases s.len(),
{
    reveal(Seq::filter);
    if s.len() > 0 {
        let s1 = s.drop_last();
        lemma_filter_in_source(s1, pred);
        assert forall|j: int|
            0 <= j < s.filter(pred).len() implies s.contains(#[trigger] s.filter(pred)[j]) by {
            let f = s.filter(pred);
            let f1 = s1.filter(pred);
            if j < f1.len() {
                assert(f[j] == f1[j]);
                assert(s1.contains(f1[j]));
                let m = choose|m: int| 0 <= m < s1.len() && s1[m] == f1[j];
                assert(s[m] == f[j]);
            } else {
                assert(f[j] == s.last());
                assert(s[s.len() - 1] == f[j]);
            }
        }
    }
}

/// Filtering a table with unique keys leaves the keys unique.
pub proof fn lemma_filter_keeps_unique<K, V>(s: Seq<(K, V)>, pred: spec_fn((K, V)) -> bool)
    requires
        unique_keys(s),
    ensures
        unique_keys(s.filter(pred)),
    decreases s.len(),
{
    reveal(Seq::filter);
    if s.len() > 0 {
        let s1 = s.drop_last();
        assert(unique_keys(s1)) by {
            assert(forall|k: int| 0 <= k < s1.len() ==> (#[trigger] s1[k]) == s[k]);
        }
        lemma_filter_keeps_unique(s1, pred);
        lemma_filter_in_source(s1, pred);
        let f = s.filter(pred);
        let f1 = s1.filter(pred);
        if pred(s.last()) {
            assert(f == f1.push(s.last()));
            assert forall|p: int, q: int|
                0 <= p < q < f.len() implies (#[trigger] f[p]).0 != (#[trigger] f[q]).0 by {
                if q < f.len() - 1 {
                    assert(f[p] == f1[p] && f[q] == f1[q]);
                } else {
                    assert(f[q] == s.last());
                    assert(f[p] == f1[p]);
                    assert(s1.contains(f1[p]));
                    let m = choose|m: int| 0 <= m < s1.len() && s1[m] == f1[p];
                    assert(s[m] == f1[p]);
                    assert(s[m].0 != s[s.len() - 1].0);
                }
            }
        }
    }
}

/// An element with key `b` in a filtered table means the filtered table has
/// that key.
pub proof fn lemma_filter_has_key<K, V>(s: Seq<(K, V)>, pred: spec_fn((K, V)) -> bool, i: int)
    requires
        0 <= i < s.len(),
        pred(s[i]),
    ensures
        has_key(s.filter(pred), s[i].0),
{
    s.lemma_filter_contains(pred, i);
    let f = s.filter(pred);
    let j = choose|j: int| 0 <= j < f.len() && f[j] == s[i];
    assert(f[j].0 == s[i].0);
}

/// No element of a filtered table has key `b` when every entry of the table
/// carrying `b` fails the predicate.
pub proof fn lemma_filter_drops_key<K, V>(s: Seq<(K, V)>, pred: spec_fn((K, V)) -> bool, b: K)
    requires
        forall|i: int| 0 <= i < s.len() && (#[trigger] s[i]).0 == b ==> !pred(s[i]),
    ensures
        !has_key(s.filter(pred), b),
{
    lemma_filter_in_source(s, pred);
    let f = s.filter(pred);
    if has_key(f, b) {
        let j = key_idx(f, b);
        assert(f[j].0 == b);
        assert(s.contains(f[j]));
        let m = choose|m: int| 0 <= m < s.len() && s[m] == f[j];
        s.lemma_filter_pred(pred, j);
        assert(false);
    }
}

} // verus!

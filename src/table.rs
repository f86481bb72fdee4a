//! Keyed amount tables: a list of `(key, amount)` entries with distinct keys,
//! read as a map whose absent keys hold zero.
use vstd::prelude::*;

verus! {

/// The amount stored under `k`, or zero when no entry has that key.
pub open spec fn lookup<K>(s: Seq<(K, i128)>, k: K) -> int
    decreases s.len(),
{
    if s.len() == 0 {
        0
    } else if s.last().0 == k {
        s.last().1 as int
    } else {
        lookup(s.drop_last(), k)
    }
}

/// The sum of all amounts in the table.
pub open spec fn total<K>(s: Seq<(K, i128)>) -> int
    decreases s.len(),
{
    if s.len() == 0 {
        0
    } else {
        total(s.drop_last()) + s.last().1
    }
}

/// No two entries share a key.
pub open spec fn keys_distinct<K>(s: Seq<(K, i128)>) -> bool {
    forall|i: int, j: int| 0 <= i < j < s.len() ==> s[i].0 != s[j].0
}

/// Every amount is non-negative.
pub open spec fn all_nonneg<K>(s: Seq<(K, i128)>) -> bool {
    forall|i: int| 0 <= i < s.len() ==> s[i].1 >= 0
}

/// The entry at `i` is the one that `lookup` finds for its key.
pub proof fn lemma_lookup_at<K>(s: Seq<(K, i128)>, i: int)
    requires
        keys_distinct(s),
        0 <= i < s.len(),
    ensures
        lookup(s, s[i].0) == s[i].1,
    decreases s.len(),
{
    if i < s.len() - 1 {
        assert(s.drop_last()[i] == s[i]);
        lemma_lookup_at(s.drop_last(), i);
    }
}

/// A key that no entry has reads as zero.
pub proof fn lemma_lookup_absent<K>(s: Seq<(K, i128)>, k: K)
    requires
        forall|i: int| 0 <= i < s.len() ==> s[i].0 != k,
    ensures
        lookup(s, k) == 0,
    decreases s.len(),
{
    if s.len() > 0 {
        assert(s.last() == s[s.len() - 1]);
        lemma_lookup_absent(s.drop_last(), k);
    }
}

/// Replacing the amount at `i` changes what its key reads and nothing else.
pub proof fn lemma_lookup_update<K>(s: Seq<(K, i128)>, i: int, v: i128, k: K)
    requires
        keys_distinct(s),
        0 <= i < s.len(),
    ensures
        keys_distinct(s.update(i, (s[i].0, v))),
        lookup(s.update(i, (s[i].0, v)), k) == if k == s[i].0 {
            v as int
        } else {
            lookup(s, k)
        },
    decreases s.len(),
{
    let t = s.update(i, (s[i].0, v));
    assert(keys_distinct(t));
    if i == s.len() - 1 {
        assert(t.drop_last() =~= s.drop_last());
        if k != s[i].0 {
            assert(s.last() == s[i]);
        }
    } else {
        assert(t.drop_last() =~= s.drop_last().update(i, (s[i].0, v)));
        assert(s.drop_last()[i] == s[i]);
        lemma_lookup_update(s.drop_last(), i, v, k);
        if k == s[i].0 {
            assert(s.last() == s[s.len() - 1]);
        }
    }
}

/// Appending an entry for a new key.
pub proof fn lemma_lookup_push<K>(s: Seq<(K, i128)>, e: (K, i128), k: K)
    requires
        keys_distinct(s),
        forall|i: int| 0 <= i < s.len() ==> s[i].0 != e.0,
    ensures
        keys_distinct(s.push(e)),
        lookup(s.push(e), k) == if k == e.0 {
            e.1 as int
        } else {
            lookup(s, k)
        },
        total(s.push(e)) == total(s) + e.1,
{
    assert(s.push(e).drop_last() =~= s);
    assert(keys_distinct(s.push(e)));
}

/// Replacing the amount at `i` moves the sum by the difference.
pub proof fn lemma_total_update<K>(s: Seq<(K, i128)>, i: int, v: i128)
    requires
        0 <= i < s.len(),
    ensures
        total(s.update(i, (s[i].0, v))) == total(s) - s[i].1 + v,
    decreases s.len(),
{
    let t = s.update(i, (s[i].0, v));
    if i == s.len() - 1 {
        assert(t.drop_last() =~= s.drop_last());
    } else {
        assert(t.drop_last() =~= s.drop_last().update(i, (s[i].0, v)));
        assert(s.drop_last()[i] == s[i]);
        lemma_total_update(s.drop_last(), i, v);
    }
}

/// With no negative amounts, the sum is non-negative and no single key
/// reads more than the sum.
pub proof fn lemma_lookup_le_total<K>(s: Seq<(K, i128)>, k: K)
    requires
        all_nonneg(s),
    ensures
        0 <= lookup(s, k) <= total(s),
        0 <= total(s),
    decreases s.len(),
{
    if s.len() > 0 {
        assert(s.last() == s[s.len() - 1]);
        assert(all_nonneg(s.drop_last())) by {
            assert forall|i: int| 0 <= i < s.drop_last().len() implies s.drop_last()[i].1 >= 0 by {
                assert(s.drop_last()[i] == s[i]);
            }
        }
        lemma_lookup_le_total(s.drop_last(), k);
    }
}

} // verus!

//! Association tables from labels to degrees.
use vstd::prelude::*;
use crate::Label;

verus! {

/// The value of the first entry of `s` whose key is `k`.
pub open spec fn lookup<K>(s: Seq<(K, i64)>, k: K) -> Option<i64>
    decreases s.len(),
{
    if s.len() == 0 {
        None
    } else if s[0].0 == k {
        Some(s[0].1)
    } else {
        lookup(s.drop_first(), k)
    }
}

/// A value found by `lookup` is the value of an entry with that key.
pub proof fn lemma_lookup_entry<K>(s: Seq<(K, i64)>, k: K)
    ensures
        lookup(s, k) matches Some(v) ==> exists|j: int| 0 <= j < s.len() && #[trigger] s[j] == (k, v),
    decreases s.len(),
{
    if s.len() > 0 && s[0].0 != k {
        lemma_lookup_entry(s.drop_first(), k);
        if let Some(v) = lookup(s, k) {
            let j = choose|j: int| 0 <= j < s.drop_first().len() && #[trigger] s.drop_first()[j] == (k, v);
            assert(s[j + 1] == (k, v));
        }
    } else if s.len() > 0 {
        assert(s[0] == (k, s[0].1));
    }
}

/// A key that has an entry is found.
pub proof fn lemma_lookup_some<K>(s: Seq<(K, i64)>, j: int)
    requires
        0 <= j < s.len(),
    ensures
        lookup(s, s[j].0) is Some,
    decreases s.len(),
{
    if j > 0 && s[0].0 != s[j].0 {
        lemma_lookup_some(s.drop_first(), j - 1);
    }
}

proof fn lemma_lookup_step<K>(s: Seq<(K, i64)>, i: int, k: K)
    requires
        0 <= i < s.len(),
    ensures
        lookup(s.subrange(i, s.len() as int), k) == if s[i].0 == k {
            Some(s[i].1)
        } else {
            lookup(s.subrange(i + 1, s.len() as int), k)
        },
{
    assert(s.subrange(i, s.len() as int).drop_first() =~= s.subrange(i + 1, s.len() as int));
}

/// Looks up the first entry with key `k`.
pub fn find<K: Label>(table: &Vec<(K, i64)>, k: &K) -> (r: Option<i64>)
    ensures
        r == lookup(table@, *k),
{
    let mut i: usize = 0;
    assert(table@.subrange(0, table@.len() as int) =~= table@);
    while i < table.len()
        invariant
            i <= table@.len(),
            lookup(table@, *k) == lookup(table@.subrange(i as int, table@.len() as int), *k),
        decreases table@.len() - i,
    {
        proof {
            lemma_lookup_step(table@, i as int, *k);
        }
        if table[i].0.same(k) {
            return Some(table[i].1);
        }
        i = i + 1;
    }
    None
}

} // verus!

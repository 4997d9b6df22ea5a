//! Small helpers on std collections.
use vstd::laws_cmp::obeys_cmp;
use vstd::prelude::*;

verus! {

/// `m` with the pairs of `s` inserted in order.
pub open spec fn insert_all<K, V>(m: Map<K, V>, s: Seq<(K, V)>) -> Map<K, V>
    decreases s.len(),
{
    if s.len() == 0 {
        m
    } else {
        insert_all(m, s.drop_last()).insert(s.last().0, s.last().1)
    }
}

/// Inserts every pair of `vec` into `map`, whose keys none of them holds yet.
pub fn btreemap_insert_all<K: Ord, V>(vec: Vec<(K, V)>, map: &mut std::collections::BTreeMap<K, V>)
    requires
        obeys_cmp::<K>(),
        forall|i: int| 0 <= i < vec@.len() ==> !old(map)@.contains_key(#[trigger] vec@[i].0),
        forall|i: int, j: int| 0 <= i < j < vec@.len() ==> vec@[i].0 != vec@[j].0,
    ensures
        final(map)@ == insert_all(old(map)@, vec@),
{
    let mut vec = vec;
    let ghost orig = vec@;
    let total = vec.len();
    let mut done: usize = 0;
    while vec.len() > 0
        invariant
            obeys_cmp::<K>(),
            orig.len() == total,
            done + vec@.len() == orig.len(),
            vec@ == orig.subrange(done as int, orig.len() as int),
            map@ == insert_all(old(map)@, orig.subrange(0, done as int)),
        decreases vec@.len(),
    {
        let (k, v) = vec.remove(0);
        map.insert(k, v);
        proof {
            assert(orig.subrange(0, done + 1).drop_last() =~= orig.subrange(0, done as int));
        }
        done = done + 1;
    }
    assert(orig.subrange(0, orig.len() as int) =~= orig);
}

} // verus!

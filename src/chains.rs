//! Buckets of entry positions, shared by the indexes that first pick a
//! bucket for a key and then compare keys within it.
use vstd::prelude::*;
use crate::bytes::keys_equal;
use crate::table::{has_key, pairs, Entry};

verus! {

/// Every position held in a bucket is below `n`.
pub open spec fn chains_in_range(buckets: Seq<Vec<usize>>, n: int) -> bool {
    forall|b: int, k: int| 0 <= b < buckets.len() && 0 <= k < buckets[b]@.len() ==> #[trigger] buckets[b]@[k] < n
}

/// `nb` empty buckets.
pub fn empty_buckets(nb: usize) -> (r: Vec<Vec<usize>>)
    ensures
        r@.len() == nb,
        forall|b: int| 0 <= b < nb ==> (#[trigger] r@[b])@.len() == 0,
{
    let mut r: Vec<Vec<usize>> = Vec::new();
    while r.len() < nb
        invariant
            r@.len() <= nb,
            forall|b: int| 0 <= b < r@.len() ==> (#[trigger] r@[b])@.len() == 0,
        decreases nb - r@.len(),
    {
        r.push(Vec::new());
    }
    r
}

/// Appends position `i` to bucket `b`.
pub fn add_to_bucket(buckets: &mut Vec<Vec<usize>>, b: usize, i: usize)
    requires
        b < old(buckets)@.len(),
    ensures
        final(buckets)@.len() == old(buckets)@.len(),
        final(buckets)@[b as int]@ == old(buckets)@[b as int]@.push(i),
        forall|c: int| 0 <= c < final(buckets)@.len() && c != b ==> #[trigger] final(buckets)@[c] == old(buckets)@[c],
{
    let mut chain: Vec<usize> = Vec::new();
    std::mem::swap(&mut buckets[b], &mut chain);
    chain.push(i);
    std::mem::swap(&mut buckets[b], &mut chain);
}

/// Searches one bucket for an entry whose key is `q`.
pub fn scan_bucket(entries: &Vec<Entry>, chain: &Vec<usize>, q: &[u8]) -> (r: Option<usize>)
    requires
        forall|k: int| 0 <= k < chain@.len() ==> #[trigger] chain@[k] < entries@.len(),
    ensures
        match r {
            Some(i) => i < entries@.len() && entries@[i as int].key@ == q@,
            None => forall|k: int| 0 <= k < chain@.len() ==> entries@[#[trigger] chain@[k] as int].key@ != q@,
        },
{
    let mut k: usize = 0;
    while k < chain.len()
        invariant
            k <= chain@.len(),
            forall|k: int| 0 <= k < chain@.len() ==> #[trigger] chain@[k] < entries@.len(),
            forall|m: int| 0 <= m < k ==> entries@[#[trigger] chain@[m] as int].key@ != q@,
        decreases chain@.len() - k,
    {
        let i = chain[k];
        if keys_equal(entries[i].key.as_slice(), q) {
            return Some(i);
        }
        k = k + 1;
    }
    None
}

/// When every entry with key `q` would sit in bucket `b`, and none there
/// has it, the key is absent.
pub proof fn lemma_bucket_miss(entries: Seq<Entry>, buckets: Seq<Vec<usize>>, b: int, q: Seq<u8>)
    requires
        entries.len() <= usize::MAX,
        0 <= b < buckets.len(),
        forall|k: int| 0 <= k < buckets[b]@.len() ==> entries[#[trigger] buckets[b]@[k] as int].key@ != q,
        forall|i: int| 0 <= i < entries.len() && #[trigger] entries[i].key@ == q ==> buckets[b]@.contains(i as usize),
    ensures
        !has_key(pairs(entries), q),
{
    if has_key(pairs(entries), q) {
        let a = choose|a: int| 0 <= a < entries.len() && #[trigger] pairs(entries)[a].0 == q;
        assert(entries[a].key@ == q);
        assert(buckets[b]@.contains(a as usize));
        let k = choose|k: int| 0 <= k < buckets[b]@.len() && buckets[b]@[k] == a as usize;
        assert(entries[buckets[b]@[k] as int].key@ != q);
    }
}

} // verus!

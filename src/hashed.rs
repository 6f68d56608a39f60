//! A chained hash table over the entries, under one of three hash families.
use vstd::prelude::*;
use std::collections::hash_map::DefaultHasher;
use std::hash::Hasher;
use vstd::std_specs::hash::DefaultHasherAdditionalSpecFns;
use crate::chains::{add_to_bucket, chains_in_range, empty_buckets, lemma_bucket_miss, scan_bucket};
use crate::table::{copy_entries, find_spec, lemma_find_at, lemma_sorted_unique, pairs, unique_keys, value_view, Entry, EntityTable, Pairs};

verus! {

/// The 64-bit digest that std's default SipHash hasher gives for the bytes
/// written in one piece.
pub open spec fn sip_of(b: Seq<u8>) -> u64 {
    DefaultHasher::spec_finish(seq![b])
}

/// The 64-bit digest that SeaHash gives for the bytes.
pub uninterp spec fn sea_of(b: Seq<u8>) -> u64;

/// One step of 64-bit FNV-1a: xor in the byte, then multiply by the prime.
pub open spec fn fnv_step(h: u64, x: u8) -> u64 {
    (((h ^ (x as u64)) as int * 0x100000001b3) % 0x10000000000000000) as u64
}

pub open spec fn fnv_from(h: u64, b: Seq<u8>) -> u64
    decreases b.len(),
{
    if b.len() == 0 {
        h
    } else {
        fnv_from(fnv_step(h, b[0]), b.drop_first())
    }
}

/// 64-bit FNV-1a of the bytes.
pub open spec fn fnv_of(b: Seq<u8>) -> u64 {
    fnv_from(0xcbf29ce484222325, b)
}

/// SipHash with std's default hasher: a fresh hasher, the bytes written once.
fn sip_hash(b: &[u8]) -> (r: u64)
    ensures
        r == sip_of(b@),
{
    let mut h = DefaultHasher::new();
    h.write(b);
    h.finish()
}

/// Relies on `seahash::hash`: a digest with fixed seeds, of the bytes alone.
#[verifier::external_body]
fn sea_hash(b: &[u8]) -> (r: u64)
    ensures
        r == sea_of(b@),
{
    seahash::hash(b)
}

/// Relies on `fnv::FnvHasher`: `default` starts at the FNV offset basis and
/// `write` applies one FNV-1a step per byte; `finish` returns the state.
#[verifier::external_body]
fn fnv_hash(b: &[u8]) -> (r: u64)
    ensures
        r == fnv_of(b@),
{
    let mut h = fnv::FnvHasher::default();
    std::hash::Hasher::write(&mut h, b);
    std::hash::Hasher::finish(&h)
}

/// The hash function that a hash index is built with.
#[derive(Debug, Clone, Copy, PartialEq, Eq, Structural)]
pub enum HashFamily {
    /// SipHash, a keyed general-purpose hash of cryptographic strength.
    Sip,
    /// SeaHash, a fast non-cryptographic 64-bit hash.
    Sea,
    /// FNV-1a, a tiny multiplicative hash.
    Fnv,
}

pub open spec fn hash_spec(f: HashFamily, b: Seq<u8>) -> u64 {
    match f {
        HashFamily::Sip => sip_of(b),
        HashFamily::Sea => sea_of(b),
        HashFamily::Fnv => fnv_of(b),
    }
}

/// Hashes the bytes with the chosen family.
pub fn hash_bytes(f: HashFamily, b: &[u8]) -> (r: u64)
    ensures
        r == hash_spec(f, b@),
{
    match f {
        HashFamily::Sip => sip_hash(b),
        HashFamily::Sea => sea_hash(b),
        HashFamily::Fnv => fnv_hash(b),
    }
}

/// The bucket of a key in a table of `nb` buckets.
pub open spec fn slot_of(f: HashFamily, b: Seq<u8>, nb: int) -> int {
    hash_spec(f, b) as int % nb
}

/// A hash table with separate chaining over a copy of the entries.
pub struct HashIndex {
    family: HashFamily,
    entries: Vec<Entry>,
    buckets: Vec<Vec<usize>>,
}

impl HashIndex {
    /// Each entry sits in the bucket that its key hashes to.
    pub closed spec fn wf(&self) -> bool {
        let n = self.entries@.len();
        let nb = self.buckets@.len();
        &&& nb > 0
        &&& unique_keys(pairs(self.entries@))
        &&& chains_in_range(self.buckets@, n as int)
        &&& forall|i: int| 0 <= i < n ==> self.buckets@[slot_of(self.family, #[trigger] self.entries@[i].key@, nb as int)]@.contains(i as usize)
    }

    pub closed spec fn source(&self) -> Pairs {
        pairs(self.entries@)
    }

    pub closed spec fn family_spec(&self) -> HashFamily {
        self.family
    }

    pub fn family(&self) -> (r: HashFamily)
        ensures
            r == self.family_spec(),
    {
        self.family
    }

    pub fn build(table: &EntityTable, family: HashFamily) -> (r: HashIndex)
        requires
            table.wf(),
        ensures
            r.wf(),
            r.source() == table@,
            r.family_spec() == family,
    {
        let entries = copy_entries(table.entries());
        proof {
            lemma_sorted_unique(pairs(entries@));
        }
        let n = entries.len();
        let nb: usize = if n == 0 { 1 } else { n };
        let mut buckets = empty_buckets(nb);
        let mut i: usize = 0;
        while i < n
            invariant
                i <= n,
                n == entries@.len(),
                buckets@.len() == nb,
                nb > 0,
                chains_in_range(buckets@, n as int),
                forall|k: int| 0 <= k < i ==> buckets@[slot_of(family, #[trigger] entries@[k].key@, nb as int)]@.contains(k as usize),
            decreases n - i,
        {
            let h = hash_bytes(family, entries[i].key.as_slice());
            let b = (h % (nb as u64)) as usize;
            let ghost prev = buckets@;
            add_to_bucket(&mut buckets, b, i);
            proof {
                assert forall|k: int| 0 <= k < i + 1 implies buckets@[slot_of(family, #[trigger] entries@[k].key@, nb as int)]@.contains(k as usize) by {
                    let s = slot_of(family, entries@[k].key@, nb as int);
                    if k < i {
                        let w = choose|w: int| 0 <= w < prev[s]@.len() && prev[s]@[w] == k as usize;
                        if s == b {
                            assert(buckets@[s]@[w] == k as usize);
                        } else {
                            assert(buckets@[s] == prev[s]);
                        }
                    } else {
                        assert(buckets@[s]@[prev[s]@.len() as int] == k as usize);
                    }
                }
                assert forall|c: int, k: int| 0 <= c < buckets@.len() && 0 <= k < buckets@[c]@.len() implies #[trigger] buckets@[c]@[k] < n by {
                    if c != b {
                        assert(buckets@[c] == prev[c]);
                    } else if k < prev[c]@.len() {
                        assert(buckets@[c]@[k] == prev[c]@[k]);
                    }
                }
            }
            i = i + 1;
        }
        HashIndex { family, entries, buckets }
    }

    pub fn lookup(&self, q: &[u8]) -> (r: Option<String>)
        requires
            self.wf(),
        ensures
            value_view(r) == find_spec(self.source(), q@),
    {
        let nb = self.buckets.len();
        let h = hash_bytes(self.family, q);
        let b = (h % (nb as u64)) as usize;
        let n = self.entries.len();
        proof {
            assert forall|k: int| 0 <= k < self.buckets@[b as int]@.len() implies #[trigger] self.buckets@[b as int]@[k] < n by {
                assert(chains_in_range(self.buckets@, n as int));
            }
        }
        match scan_bucket(&self.entries, &self.buckets[b], q) {
            Some(i) => {
                proof {
                    assert(pairs(self.entries@)[i as int] == (self.entries@[i as int].key@, self.entries@[i as int].value@));
                    lemma_find_at(pairs(self.entries@), i as int);
                }
                Some(self.entries[i].value.clone())
            },
            None => {
                proof {
                    assert forall|i: int| 0 <= i < n && #[trigger] self.entries@[i].key@ == q@ implies self.buckets@[b as int]@.contains(i as usize) by {
                        assert(slot_of(self.family, self.entries@[i].key@, nb as int) == b);
                    }
                    lemma_bucket_miss(self.entries@, self.buckets@, b as int, q@);
                }
                None
            },
        }
    }
}

} // verus!

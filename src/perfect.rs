//! A perfect-hash table: each key of the table has a slot of its own, found
//! without probing; a query is confirmed against the key stored there.
use vstd::prelude::*;
use crate::bytes::keys_equal;
use vstd::arithmetic::div_mod::{lemma_add_mod_noop, lemma_add_mod_noop_right};
use crate::table::{copy_entries, find_spec, has_key, lemma_find_at, lemma_sorted_unique, pairs, unique_keys, value_view, Entry, EntityTable, Pairs};

verus! {

/// The three 32-bit hashes (`g`, `f1`, `f2`) that phf gives for the bytes under `key`.
pub uninterp spec fn phf_hashes_of(b: Seq<u8>, key: u64) -> (u32, u32, u32);

/// The slot that phf's displacement scheme picks: displacement pair chosen by
/// `g`, then `d2 + f1 * d1 + f2` in wrapping 32-bit arithmetic, modulo `len`.
pub open spec fn phf_index_spec(h: (u32, u32, u32), disps: Seq<(u32, u32)>, len: u32) -> u32 {
    let d = disps[(h.0 % (disps.len() as u32)) as int];
    let v = ((d.1 as int + h.1 as int * d.0 as int + h.2 as int) % 0x1_0000_0000) as u32;
    v % len
}

/// Relies on `phf_generator::generate_hash`: from a fixed seed it tries hash
/// keys until one admits displacements that give each key its own slot, one
/// displacement pair per bucket of five keys; the map sends each slot to the
/// key placed there. With duplicate keys it would search forever.
#[verifier::external_body]
fn phf_generate(keys: &Vec<Vec<u8>>) -> (r: (u64, Vec<(u32, u32)>, Vec<usize>))
    requires
        0 < keys@.len() <= u32::MAX,
        forall|i: int, j: int| 0 <= i < keys@.len() && 0 <= j < keys@.len() && i != j ==> keys@[i]@ != keys@[j]@,
    ensures
        r.1@.len() == (keys@.len() + 4) / 5,
        r.2@.len() == keys@.len(),
        forall|s: int| 0 <= s < r.2@.len() ==> #[trigger] r.2@[s] < keys@.len(),
        forall|i: int| 0 <= i < keys@.len() ==> r.2@[phf_index_spec(phf_hashes_of((#[trigger] keys@[i])@, r.0), r.1@, keys@.len() as u32) as int] == i,
{
    let state = phf_generator::generate_hash(keys.as_slice());
    (state.key, state.disps, state.map)
}

/// Relies on `phf_shared::hash`: SipHash-1-3 of the bytes under the hash key,
/// split into three 32-bit parts.
#[verifier::external_body]
fn phf_hashes(b: &[u8], key: u64) -> (r: (u32, u32, u32))
    ensures
        r == phf_hashes_of(b@, key),
{
    let h = phf_shared::hash(b, &key);
    (h.g, h.f1, h.f2)
}

/// The slot for the hashes: phf's `get_index`, written out.
pub fn phf_index(h: (u32, u32, u32), disps: &Vec<(u32, u32)>, len: usize) -> (r: u32)
    requires
        0 < disps@.len() <= u32::MAX,
        0 < len <= u32::MAX,
    ensures
        r == phf_index_spec(h, disps@, len as u32),
        r < len,
{
    let (d1, d2) = disps[(h.0 % (disps.len() as u32)) as usize];
    let t1 = h.1.wrapping_mul(d1);
    let t2 = d2.wrapping_add(t1);
    let v = t2.wrapping_add(h.2);
    proof {
        let m = 0x1_0000_0000int;
        let x = h.1 as int * d1 as int;
        assert(t1 as int == x % m);
        assert(t2 as int == (d2 as int + t1 as int) % m);
        assert(v as int == (t2 as int + h.2 as int) % m);
        lemma_add_mod_noop_right(d2 as int, x, m);
        lemma_add_mod_noop(d2 as int + x, h.2 as int, m);
        assert(h.2 as int % m == h.2 as int);
    }
    v % (len as u32)
}

/// Why a perfect-hash table could not be built.
#[derive(Debug, Clone, Copy, PartialEq, Eq, Structural)]
pub enum PerfectHashError {
    /// More keys than 32-bit slot numbers can address.
    TooLarge,
}

/// A perfect-hash table over a copy of the entries.
pub struct PerfectHashIndex {
    entries: Vec<Entry>,
    key: u64,
    disps: Vec<(u32, u32)>,
    slots: Vec<usize>,
}

impl PerfectHashIndex {
    pub closed spec fn slot_spec(&self, q: Seq<u8>) -> int {
        phf_index_spec(phf_hashes_of(q, self.key), self.disps@, self.entries@.len() as u32) as int
    }

    /// Each key's slot holds that key's position.
    pub closed spec fn wf(&self) -> bool {
        let n = self.entries@.len();
        &&& unique_keys(pairs(self.entries@))
        &&& self.slots@.len() == n
        &&& n > 0 ==> 0 < self.disps@.len() <= u32::MAX && n <= u32::MAX
        &&& forall|s: int| 0 <= s < n ==> #[trigger] self.slots@[s] < n
        &&& forall|i: int| 0 <= i < n ==> self.slots@[self.slot_spec((#[trigger] self.entries@[i]).key@)] == i
    }

    pub closed spec fn source(&self) -> Pairs {
        pairs(self.entries@)
    }

    /// Builds the table; it fails only when there are more keys than 32-bit
    /// slot numbers.
    pub fn build(table: &EntityTable) -> (r: Result<PerfectHashIndex, PerfectHashError>)
        requires
            table.wf(),
        ensures
            match r {
                Ok(p) => p.wf() && p.source() == table@,
                Err(e) => e == PerfectHashError::TooLarge,
            },
            r is Ok <==> table@.len() <= u32::MAX,
    {
        let entries = copy_entries(table.entries());
        proof {
            lemma_sorted_unique(pairs(entries@));
        }
        let n = entries.len();
        if n == 0 {
            return Ok(PerfectHashIndex { entries, key: 0, disps: Vec::new(), slots: Vec::new() });
        }
        if n > 0xFFFF_FFFF {
            return Err(PerfectHashError::TooLarge);
        }
        let mut keys: Vec<Vec<u8>> = Vec::new();
        let mut i: usize = 0;
        while i < n
            invariant
                i <= n,
                n == entries@.len(),
                keys@.len() == i,
                forall|k: int| 0 <= k < i ==> (#[trigger] keys@[k])@ == entries@[k].key@,
            decreases n - i,
        {
            keys.push(entries[i].key.clone());
            i = i + 1;
        }
        proof {
            assert forall|a: int, b: int| 0 <= a < n && 0 <= b < n && a != b implies keys@[a]@ != keys@[b]@ by {
                assert(pairs(entries@)[a].0 == entries@[a].key@);
                assert(pairs(entries@)[b].0 == entries@[b].key@);
            }
        }
        let (key, disps, slots) = phf_generate(&keys);
        proof {
            assert forall|k: int| 0 <= k < n implies slots@[phf_index_spec(phf_hashes_of((#[trigger] entries@[k]).key@, key), disps@, n as u32) as int] == k by {
                assert(keys@[k]@ == entries@[k].key@);
            }
        }
        Ok(PerfectHashIndex { entries, key, disps, slots })
    }

    pub fn lookup(&self, q: &[u8]) -> (r: Option<String>)
        requires
            self.wf(),
        ensures
            value_view(r) == find_spec(self.source(), q@),
    {
        let n = self.entries.len();
        if n == 0 {
            return None;
        }
        let h = phf_hashes(q, self.key);
        let s = phf_index(h, &self.disps, n) as usize;
        let i = self.slots[s];
        if keys_equal(self.entries[i].key.as_slice(), q) {
            proof {
                assert(pairs(self.entries@)[i as int] == (self.entries@[i as int].key@, self.entries@[i as int].value@));
                lemma_find_at(pairs(self.entries@), i as int);
            }
            Some(self.entries[i].value.clone())
        } else {
            proof {
                if has_key(pairs(self.entries@), q@) {
                    let a = choose|a: int| 0 <= a < n && #[trigger] pairs(self.entries@)[a].0 == q@;
                    assert(self.entries@[a].key@ == q@);
                    assert(self.slots@[self.slot_spec(q@)] == a);
                }
            }
            None
        }
    }
}

} // verus!

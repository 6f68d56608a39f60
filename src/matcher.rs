//! A matcher that branches on the query's length first, then compares the
//! bytes of the few keys of that length.
use vstd::prelude::*;
use crate::chains::{add_to_bucket, chains_in_range, empty_buckets, lemma_bucket_miss, scan_bucket};
use crate::table::{copy_entries, find_spec, lemma_find_at, lemma_sorted_unique, pairs, unique_keys, value_view, Entry, EntityTable, Pairs};

verus! {

/// The group of a key of length `len` among `g` groups: its length, with
/// the last group also taking anything longer.
pub open spec fn group_of(len: int, g: int) -> int {
    if len < g - 1 { len } else { g - 1 }
}

/// Positions of the entries grouped by key length.
pub struct BranchMatcher {
    entries: Vec<Entry>,
    by_len: Vec<Vec<usize>>,
}

impl BranchMatcher {
    /// Each entry sits in the group of its key's length.
    pub closed spec fn wf(&self) -> bool {
        let n = self.entries@.len();
        let g = self.by_len@.len() as int;
        &&& g > 0
        &&& unique_keys(pairs(self.entries@))
        &&& chains_in_range(self.by_len@, n as int)
        &&& forall|i: int| 0 <= i < n ==> self.by_len@[group_of((#[trigger] self.entries@[i]).key@.len() as int, g)]@.contains(i as usize)
    }

    pub closed spec fn source(&self) -> Pairs {
        pairs(self.entries@)
    }

    pub fn build(table: &EntityTable) -> (r: BranchMatcher)
        requires
            table.wf(),
        ensures
            r.wf(),
            r.source() == table@,
    {
        let entries = copy_entries(table.entries());
        proof {
            lemma_sorted_unique(pairs(entries@));
        }
        let n = entries.len();
        let mut longest: usize = 0;
        let mut i: usize = 0;
        while i < n
            invariant
                i <= n,
                n == entries@.len(),
                forall|k: int| 0 <= k < i ==> (#[trigger] entries@[k]).key@.len() <= longest,
            decreases n - i,
        {
            if entries[i].key.len() > longest {
                longest = entries[i].key.len();
            }
            i = i + 1;
        }
        let groups: usize = if longest < usize::MAX { longest + 1 } else { longest };
        let mut by_len = empty_buckets(groups);
        let mut i: usize = 0;
        while i < n
            invariant
                i <= n,
                n == entries@.len(),
                by_len@.len() == groups,
                groups > 0,
                chains_in_range(by_len@, n as int),
                forall|k: int| 0 <= k < i ==> by_len@[group_of((#[trigger] entries@[k]).key@.len() as int, groups as int)]@.contains(k as usize),
            decreases n - i,
        {
            let len = entries[i].key.len();
            let b = if len < groups - 1 { len } else { groups - 1 };
            let ghost prev = by_len@;
            add_to_bucket(&mut by_len, b, i);
            proof {
                assert forall|k: int| 0 <= k < i + 1 implies by_len@[group_of((#[trigger] entries@[k]).key@.len() as int, groups as int)]@.contains(k as usize) by {
                    let s = group_of(entries@[k].key@.len() as int, groups as int);
                    if k < i {
                        let w = choose|w: int| 0 <= w < prev[s]@.len() && prev[s]@[w] == k as usize;
                        if s == b {
                            assert(by_len@[s]@[w] == k as usize);
                        } else {
                            assert(by_len@[s] == prev[s]);
                        }
                    } else {
                        assert(by_len@[s]@[prev[s]@.len() as int] == k as usize);
                    }
                }
                assert forall|c: int, k: int| 0 <= c < by_len@.len() && 0 <= k < by_len@[c]@.len() implies #[trigger] by_len@[c]@[k] < n by {
                    if c != b {
                        assert(by_len@[c] == prev[c]);
                    } else if k < prev[c]@.len() {
                        assert(by_len@[c]@[k] == prev[c]@[k]);
                    }
                }
            }
            i = i + 1;
        }
        BranchMatcher { entries, by_len }
    }

    pub fn lookup(&self, q: &[u8]) -> (r: Option<String>)
        requires
            self.wf(),
        ensures
            value_view(r) == find_spec(self.source(), q@),
    {
        let n = self.entries.len();
        let g = self.by_len.len();
        let b = if q.len() < g - 1 { q.len() } else { g - 1 };
        proof {
            assert forall|k: int| 0 <= k < self.by_len@[b as int]@.len() implies #[trigger] self.by_len@[b as int]@[k] < n by {
                assert(chains_in_range(self.by_len@, n as int));
            }
        }
        match scan_bucket(&self.entries, &self.by_len[b], q) {
            Some(i) => {
                proof {
                    assert(pairs(self.entries@)[i as int] == (self.entries@[i as int].key@, self.entries@[i as int].value@));
                    lemma_find_at(pairs(self.entries@), i as int);
                }
                Some(self.entries[i].value.clone())
            },
            None => {
                proof {
                    assert forall|i: int| 0 <= i < n && #[trigger] self.entries@[i].key@ == q@ implies self.by_len@[b as int]@.contains(i as usize) by {
                        assert(group_of(self.entries@[i].key@.len() as int, g as int) == b);
                    }
                    lemma_bucket_miss(self.entries@, self.by_len@, b as int, q@);
                }
                None
            },
        }
    }
}

} // verus!

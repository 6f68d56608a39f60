//! Binary search over the sorted entries.
use vstd::prelude::*;
use crate::bytes::{compare_keys, key_lt, lemma_cmp_antisym, lemma_key_lt_trans, lemma_key_lt_irrefl};
use crate::table::{find_spec, has_key, lemma_find_at, lemma_sorted_unique, pairs, sorted_keys, value_view, Entry, EntityTable, Pairs};

verus! {

/// Looks `q` up in sorted entries by halving the search range.
pub fn binary_search_entries(entries: &Vec<Entry>, q: &[u8]) -> (r: Option<String>)
    requires
        sorted_keys(pairs(entries@)),
    ensures
        value_view(r) == find_spec(pairs(entries@), q@),
{
    let ghost s = pairs(entries@);
    let n = entries.len();
    let mut lo: usize = 0;
    let mut hi: usize = n;
    while lo < hi
        invariant
            lo <= hi <= n,
            n == entries@.len(),
            s == pairs(entries@),
            sorted_keys(s),
            forall|j: int| 0 <= j < lo ==> key_lt(#[trigger] s[j].0, q@),
            forall|j: int| hi <= j < n ==> key_lt(q@, #[trigger] s[j].0),
        decreases hi - lo,
    {
        let mid = lo + (hi - lo) / 2;
        assert(s[mid as int] == (entries@[mid as int].key@, entries@[mid as int].value@));
        let c = compare_keys(entries[mid].key.as_slice(), q);
        if c == 0 {
            proof {
                crate::bytes::lemma_cmp_eq(s[mid as int].0, q@);
                lemma_sorted_unique(s);
                lemma_find_at(s, mid as int);
            }
            return Some(entries[mid].value.clone());
        } else if c < 0 {
            proof {
                assert forall|j: int| 0 <= j < mid + 1 implies key_lt(#[trigger] s[j].0, q@) by {
                    if j < mid {
                        lemma_key_lt_trans(s[j].0, s[mid as int].0, q@);
                    }
                }
            }
            lo = mid + 1;
        } else {
            proof {
                lemma_cmp_antisym(q@, s[mid as int].0, 0);
                assert forall|j: int| mid <= j < n implies key_lt(q@, #[trigger] s[j].0) by {
                    if j > mid {
                        lemma_key_lt_trans(q@, s[mid as int].0, s[j].0);
                    }
                }
            }
            hi = mid;
        }
    }
    proof {
        assert forall|j: int| 0 <= j < n implies #[trigger] s[j].0 != q@ by {
            lemma_key_lt_irrefl(q@);
        }
        assert(!has_key(s, q@));
    }
    None
}

/// Binary search over the table's sorted entries, borrowed in place.
pub struct BinarySearchIndex<'a> {
    entries: &'a Vec<Entry>,
}

impl<'a> BinarySearchIndex<'a> {
    pub closed spec fn wf(&self) -> bool {
        sorted_keys(pairs(self.entries@))
    }

    /// The pairs that the index answers from.
    pub closed spec fn source(&self) -> Pairs {
        pairs(self.entries@)
    }

    pub fn build(table: &'a EntityTable) -> (r: BinarySearchIndex<'a>)
        requires
            table.wf(),
        ensures
            r.wf(),
            r.source() == table@,
    {
        BinarySearchIndex { entries: table.entries() }
    }

    pub fn lookup(&self, q: &[u8]) -> (r: Option<String>)
        requires
            self.wf(),
        ensures
            value_view(r) == find_spec(self.source(), q@),
    {
        binary_search_entries(self.entries, q)
    }
}

} // verus!

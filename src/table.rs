//! The entity table: a sorted sequence of unique keys with their values.
use vstd::prelude::*;
use crate::bytes::{compare_keys, keys_equal, key_lt, lemma_key_lt_trans, lemma_key_lt_irrefl};

verus! {

/// One key with its value.
pub struct Entry {
    pub key: Vec<u8>,
    pub value: String,
}

impl Entry {
    pub fn new(key: Vec<u8>, value: String) -> (r: Entry)
        ensures
            r.key@ == key@,
            r.value@ == value@,
    {
        Entry { key, value }
    }

    pub fn clone_entry(&self) -> (r: Entry)
        ensures
            r.key@ == self.key@,
            r.value@ == self.value@,
    {
        Entry { key: self.key.clone(), value: self.value.clone() }
    }
}

/// A table as mathematics sees it: (key, value) pairs in order.
pub type Pairs = Seq<(Seq<u8>, Seq<char>)>;

/// The pairs that a sequence of entries holds.
pub open spec fn pairs(t: Seq<Entry>) -> Pairs {
    t.map_values(|e: Entry| (e.key@, e.value@))
}

/// Keys strictly increase along the sequence (so they are also unique).
pub open spec fn sorted_keys(t: Pairs) -> bool {
    forall|i: int, j: int| 0 <= i < j < t.len() ==> key_lt(#[trigger] t[i].0, #[trigger] t[j].0)
}

/// No key occurs twice.
pub open spec fn unique_keys(t: Pairs) -> bool {
    forall|i: int, j: int| 0 <= i < t.len() && 0 <= j < t.len() && #[trigger] t[i].0 == #[trigger] t[j].0 ==> i == j
}

/// Some entry of `t` has the key `q`.
pub open spec fn has_key(t: Pairs, q: Seq<u8>) -> bool {
    exists|i: int| 0 <= i < t.len() && #[trigger] t[i].0 == q
}

/// The value that `t` pairs with `q`, if any.
pub open spec fn find_spec(t: Pairs, q: Seq<u8>) -> Option<Seq<char>> {
    if has_key(t, q) {
        let i = choose|i: int| 0 <= i < t.len() && #[trigger] t[i].0 == q;
        Some(t[i].1)
    } else {
        None
    }
}

/// The view of a lookup result.
pub open spec fn value_view(r: Option<String>) -> Option<Seq<char>> {
    match r {
        Some(s) => Some(s@),
        None => None,
    }
}

pub proof fn lemma_sorted_unique(t: Pairs)
    requires
        sorted_keys(t),
    ensures
        unique_keys(t),
{
    assert forall|i: int, j: int| 0 <= i < t.len() && 0 <= j < t.len() && #[trigger] t[i].0 == #[trigger] t[j].0 implies i == j by {
        lemma_key_lt_irrefl(t[i].0);
    }
}

/// With unique keys, the entry that holds `q` gives the value found.
pub proof fn lemma_find_at(t: Pairs, i: int)
    requires
        unique_keys(t),
        0 <= i < t.len(),
    ensures
        find_spec(t, t[i].0) == Some(t[i].1),
{
    assert(has_key(t, t[i].0));
}

/// Looks `q` up by a scan over `entries`; the position of the match, if any.
pub fn scan_for(entries: &Vec<Entry>, q: &[u8]) -> (r: Option<usize>)
    ensures
        match r {
            Some(i) => i < entries@.len() && entries@[i as int].key@ == q@,
            None => !has_key(pairs(entries@), q@),
        },
{
    let mut i: usize = 0;
    while i < entries.len()
        invariant
            i <= entries@.len(),
            forall|k: int| 0 <= k < i ==> #[trigger] entries@[k].key@ != q@,
        decreases entries@.len() - i,
    {
        assert(pairs(entries@)[i as int].0 == entries@[i as int].key@);
        if keys_equal(entries[i].key.as_slice(), q) {
            return Some(i);
        }
        i = i + 1;
    }
    assert forall|k: int| 0 <= k < entries@.len() implies #[trigger] pairs(entries@)[k].0 != q@ by {
        assert(entries@[k].key@ != q@);
    }
    None
}

/// Copies entries one by one.
pub fn copy_entries(v: &Vec<Entry>) -> (r: Vec<Entry>)
    ensures
        pairs(r@) == pairs(v@),
{
    let mut r: Vec<Entry> = Vec::new();
    let mut i: usize = 0;
    while i < v.len()
        invariant
            i <= v@.len(),
            r@.len() == i,
            forall|k: int| 0 <= k < i ==> (#[trigger] r@[k]).key@ == v@[k].key@ && r@[k].value@ == v@[k].value@,
        decreases v@.len() - i,
    {
        r.push(v[i].clone_entry());
        i = i + 1;
    }
    assert(pairs(r@) =~= pairs(v@));
    r
}

/// Why a sequence of entries cannot form a table.
#[derive(Debug, Clone, Copy, PartialEq, Eq, Structural)]
pub enum TableError {
    /// The keys at `index` and `index + 1` are out of order or equal.
    NotSorted { index: usize },
}

/// The table of entries, sorted ascending by key.
pub struct EntityTable {
    entries: Vec<Entry>,
}

impl View for EntityTable {
    type V = Pairs;

    closed spec fn view(&self) -> Pairs {
        pairs(self.entries@)
    }
}

impl EntityTable {
    /// A table is well formed when its keys strictly increase.
    pub open spec fn wf(&self) -> bool {
        sorted_keys(self@)
    }

    /// Builds the table; fails at the first pair of keys that does not increase.
    pub fn new(entries: Vec<Entry>) -> (r: Result<EntityTable, TableError>)
        ensures
            match r {
                Ok(t) => t.wf() && t@ == pairs(entries@),
                Err(TableError::NotSorted { index }) => index + 1 < entries@.len()
                    && !key_lt(entries@[index as int].key@, entries@[index + 1].key@)
                    && sorted_keys(pairs(entries@).subrange(0, index + 1)),
            },
            r is Ok <==> sorted_keys(pairs(entries@)),
    {
        let n = entries.len();
        if n == 0 {
            return Ok(EntityTable { entries });
        }
        let mut i: usize = 1;
        while i < n
            invariant
                1 <= i <= n,
                n == entries@.len(),
                sorted_keys(pairs(entries@).subrange(0, i as int)),
            decreases n - i,
        {
            assert(pairs(entries@)[i - 1].0 == entries@[i - 1].key@);
            assert(pairs(entries@)[i as int].0 == entries@[i as int].key@);
            if compare_keys(entries[i - 1].key.as_slice(), entries[i].key.as_slice()) >= 0 {
                return Err(TableError::NotSorted { index: i - 1 });
            }
            proof {
                let s = pairs(entries@).subrange(0, i + 1);
                assert forall|p: int, q: int| 0 <= p < q < s.len() implies key_lt(#[trigger] s[p].0, #[trigger] s[q].0) by {
                    let prev = pairs(entries@).subrange(0, i as int);
                    if q < i {
                        assert(prev[p] == s[p] && prev[q] == s[q]);
                    } else if p < i - 1 {
                        assert(prev[p] == s[p] && prev[i - 1] == s[i - 1]);
                        lemma_key_lt_trans(s[p].0, s[i - 1].0, s[q].0);
                    }
                }
            }
            i = i + 1;
        }
        assert(pairs(entries@).subrange(0, n as int) =~= pairs(entries@));
        Ok(EntityTable { entries })
    }

    pub fn len(&self) -> (r: usize)
        ensures
            r == self@.len(),
    {
        self.entries.len()
    }

    /// The entries, in key order.
    pub fn entries(&self) -> (r: &Vec<Entry>)
        ensures
            pairs(r@) == self@,
    {
        &self.entries
    }

    /// The reference query: the value paired with `q`, if any.
    pub fn find_exact(&self, q: &[u8]) -> (r: Option<String>)
        requires
            self.wf(),
        ensures
            value_view(r) == find_spec(self@, q@),
    {
        match scan_for(&self.entries, q) {
            Some(i) => {
                assert(self@[i as int] == (self.entries@[i as int].key@, self.entries@[i as int].value@));
                proof {
                    lemma_sorted_unique(self@);
                    lemma_find_at(self@, i as int);
                }
                Some(self.entries[i].value.clone())
            },
            None => None,
        }
    }
}

} // verus!

//! An ordered map (std's B-tree) from key to entry position.
use vstd::prelude::*;
use std::collections::BTreeMap;
use crate::table::{copy_entries, find_spec, has_key, lemma_find_at, lemma_sorted_unique, pairs, unique_keys, value_view, Entry, EntityTable, Pairs};

verus! {

/// The map type used: key bytes to entry position.
pub type KeyTree = BTreeMap<Vec<u8>, usize>;

/// What a B-tree map from byte keys holds, by the keys' bytes.
pub uninterp spec fn tree_contents(m: BTreeMap<Vec<u8>, usize>) -> Map<Seq<u8>, usize>;

/// Relies on `BTreeMap::new`: the map starts empty.
#[verifier::external_body]
fn tree_new() -> (r: KeyTree)
    ensures
        tree_contents(r).dom().is_empty(),
{
    BTreeMap::new()
}

/// Relies on `BTreeMap::insert`: afterwards the key maps to the value, and
/// every other key keeps its value (keys compare by their bytes).
#[verifier::external_body]
fn tree_insert(m: &mut KeyTree, k: Vec<u8>, v: usize)
    ensures
        tree_contents(*final(m)) == tree_contents(*old(m)).insert(k@, v),
{
    m.insert(k, v);
}

/// Relies on `BTreeMap::get`, looked up by the borrowed bytes: the value of
/// the key if present.
#[verifier::external_body]
fn tree_get(m: &KeyTree, k: &[u8]) -> (r: Option<usize>)
    ensures
        r == (if tree_contents(*m).contains_key(k@) { Some(tree_contents(*m)[k@]) } else { None }),
{
    m.get(k).copied()
}

/// A balanced ordered map from each key to its entry.
pub struct TreeIndex {
    entries: Vec<Entry>,
    map: KeyTree,
}

impl TreeIndex {
    /// The map's keys are exactly the entries' keys, each mapped to its entry.
    pub closed spec fn wf(&self) -> bool {
        let n = self.entries@.len();
        let c = tree_contents(self.map);
        &&& unique_keys(pairs(self.entries@))
        &&& forall|k: Seq<u8>| #[trigger] c.contains_key(k) ==> c[k] < n && self.entries@[c[k] as int].key@ == k
        &&& forall|i: int| 0 <= i < n ==> c.contains_key((#[trigger] self.entries@[i]).key@)
    }

    pub closed spec fn source(&self) -> Pairs {
        pairs(self.entries@)
    }

    pub fn build(table: &EntityTable) -> (r: TreeIndex)
        requires
            table.wf(),
        ensures
            r.wf(),
            r.source() == table@,
    {
        let entries = copy_entries(table.entries());
        proof {
            lemma_sorted_unique(pairs(entries@));
        }
        let n = entries.len();
        let mut map = tree_new();
        let mut i: usize = 0;
        while i < n
            invariant
                i <= n,
                n == entries@.len(),
                forall|k: Seq<u8>| #[trigger] tree_contents(map).contains_key(k) ==> tree_contents(map)[k] < i && entries@[tree_contents(map)[k] as int].key@ == k,
                forall|k: int| 0 <= k < i ==> tree_contents(map).contains_key((#[trigger] entries@[k]).key@),
            decreases n - i,
        {
            tree_insert(&mut map, entries[i].key.clone(), i);
            i = i + 1;
        }
        TreeIndex { entries, map }
    }

    pub fn lookup(&self, q: &[u8]) -> (r: Option<String>)
        requires
            self.wf(),
        ensures
            value_view(r) == find_spec(self.source(), q@),
    {
        match tree_get(&self.map, q) {
            Some(i) => {
                proof {
                    assert(pairs(self.entries@)[i as int] == (self.entries@[i as int].key@, self.entries@[i as int].value@));
                    lemma_find_at(pairs(self.entries@), i as int);
                }
                Some(self.entries[i].value.clone())
            },
            None => {
                proof {
                    if has_key(pairs(self.entries@), q@) {
                        let a = choose|a: int| 0 <= a < self.entries@.len() && #[trigger] pairs(self.entries@)[a].0 == q@;
                        assert(self.entries@[a].key@ == q@);
                    }
                }
                None
            },
        }
    }
}

} // verus!

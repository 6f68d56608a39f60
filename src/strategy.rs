//! One interface over the six lookup structures, picked by a configuration value.
use vstd::prelude::*;
use crate::bsearch::BinarySearchIndex;
use crate::eytzinger::EytzingerIndex;
use crate::hashed::{HashFamily, HashIndex};
use crate::matcher::BranchMatcher;
use crate::perfect::{PerfectHashError, PerfectHashIndex};
use crate::table::{find_spec, value_view, EntityTable, Pairs};
use crate::tree::TreeIndex;

verus! {

/// Which lookup structure to build.
#[derive(Debug, Clone, Copy, PartialEq, Eq, Structural)]
pub enum StrategyKind {
    Branch,
    BinarySearch,
    Eytzinger,
    Hash(HashFamily),
    OrderedTree,
    PerfectHash,
}

/// A built lookup structure.
pub enum Strategy<'a> {
    Branch(BranchMatcher),
    BinarySearch(BinarySearchIndex<'a>),
    Eytzinger(EytzingerIndex),
    Hash(HashIndex),
    OrderedTree(TreeIndex),
    PerfectHash(PerfectHashIndex),
}

/// The results that a structure answering from `t` gives for each query.
pub open spec fn results_spec(t: Pairs, queries: Seq<Vec<u8>>) -> Seq<Option<Seq<char>>> {
    queries.map_values(|q: Vec<u8>| find_spec(t, q@))
}

impl<'a> Strategy<'a> {
    pub open spec fn wf(&self) -> bool {
        match self {
            Strategy::Branch(s) => s.wf(),
            Strategy::BinarySearch(s) => s.wf(),
            Strategy::Eytzinger(s) => s.wf(),
            Strategy::Hash(s) => s.wf(),
            Strategy::OrderedTree(s) => s.wf(),
            Strategy::PerfectHash(s) => s.wf(),
        }
    }

    /// The pairs that the structure answers from.
    pub open spec fn source(&self) -> Pairs {
        match self {
            Strategy::Branch(s) => s.source(),
            Strategy::BinarySearch(s) => s.source(),
            Strategy::Eytzinger(s) => s.source(),
            Strategy::Hash(s) => s.source(),
            Strategy::OrderedTree(s) => s.source(),
            Strategy::PerfectHash(s) => s.source(),
        }
    }

    pub open spec fn kind_spec(&self) -> StrategyKind {
        match self {
            Strategy::Branch(_) => StrategyKind::Branch,
            Strategy::BinarySearch(_) => StrategyKind::BinarySearch,
            Strategy::Eytzinger(_) => StrategyKind::Eytzinger,
            Strategy::Hash(s) => StrategyKind::Hash(s.family_spec()),
            Strategy::OrderedTree(_) => StrategyKind::OrderedTree,
            Strategy::PerfectHash(_) => StrategyKind::PerfectHash,
        }
    }

    /// Builds the structure of the given kind from the table; only a
    /// perfect hash can fail.
    pub fn build(table: &'a EntityTable, kind: StrategyKind) -> (r: Result<Strategy<'a>, PerfectHashError>)
        requires
            table.wf(),
        ensures
            match r {
                Ok(s) => s.wf() && s.source() == table@ && s.kind_spec() == kind,
                Err(e) => kind == StrategyKind::PerfectHash && e == PerfectHashError::TooLarge,
            },
            r is Ok <==> (kind != StrategyKind::PerfectHash || table@.len() <= u32::MAX),
    {
        match kind {
            StrategyKind::Branch => Ok(Strategy::Branch(BranchMatcher::build(table))),
            StrategyKind::BinarySearch => Ok(Strategy::BinarySearch(BinarySearchIndex::build(table))),
            StrategyKind::Eytzinger => Ok(Strategy::Eytzinger(EytzingerIndex::build(table))),
            StrategyKind::Hash(f) => Ok(Strategy::Hash(HashIndex::build(table, f))),
            StrategyKind::OrderedTree => Ok(Strategy::OrderedTree(TreeIndex::build(table))),
            StrategyKind::PerfectHash => match PerfectHashIndex::build(table) {
                Ok(p) => Ok(Strategy::PerfectHash(p)),
                Err(e) => Err(e),
            },
        }
    }

    /// The value paired with `q`, if any.
    pub fn lookup(&self, q: &[u8]) -> (r: Option<String>)
        requires
            self.wf(),
        ensures
            value_view(r) == find_spec(self.source(), q@),
    {
        match self {
            Strategy::Branch(s) => s.lookup(q),
            Strategy::BinarySearch(s) => s.lookup(q),
            Strategy::Eytzinger(s) => s.lookup(q),
            Strategy::Hash(s) => s.lookup(q),
            Strategy::OrderedTree(s) => s.lookup(q),
            Strategy::PerfectHash(s) => s.lookup(q),
        }
    }

    /// Looks up every query in turn.
    pub fn lookup_all(&self, queries: &Vec<Vec<u8>>) -> (r: Vec<Option<String>>)
        requires
            self.wf(),
        ensures
            r@.map_values(|o: Option<String>| value_view(o)) == results_spec(self.source(), queries@),
    {
        let mut r: Vec<Option<String>> = Vec::new();
        let mut i: usize = 0;
        while i < queries.len()
            invariant
                self.wf(),
                i <= queries@.len(),
                r@.len() == i,
                forall|k: int| 0 <= k < i ==> value_view(#[trigger] r@[k]) == find_spec(self.source(), queries@[k]@),
            decreases queries@.len() - i,
        {
            r.push(self.lookup(queries[i].as_slice()));
            i = i + 1;
        }
        assert(r@.map_values(|o: Option<String>| value_view(o)) =~= results_spec(self.source(), queries@));
        r
    }
}

} // verus!

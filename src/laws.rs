//! Properties that relate the table, the lookup structures and the samples.
use vstd::prelude::*;
use crate::bsearch::BinarySearchIndex;
use crate::eytzinger::EytzingerIndex;
use crate::samples::unshuffled;
use crate::strategy::{results_spec, Strategy};
use crate::table::{find_spec, has_key, lemma_find_at, lemma_sorted_unique, sorted_keys, value_view, Pairs};

verus! {

/// Every key of a sorted table is found, paired with its own value; so each
/// structure built from the table answers a key exactly as the reference
/// query does.
pub proof fn law_present_keys_found(t: Pairs, i: int)
    requires
        sorted_keys(t),
        0 <= i < t.len(),
    ensures
        find_spec(t, t[i].0) == Some(t[i].1),
{
    lemma_sorted_unique(t);
    lemma_find_at(t, i);
}

/// A synthesized sample is a miss on every structure built from the table.
pub proof fn law_absent_samples_miss(t: Pairs, pre: Seq<Vec<u8>>, present: int, absent: int, i: int)
    requires
        unshuffled(t, pre, present, absent),
        present <= i < present + absent,
    ensures
        find_spec(t, pre[i]@) == None::<Seq<char>>,
{
    assert(!has_key(t, pre[i]@));
}

/// Any two structures answering from the same table return, for one
/// sequence of queries, the same sequence of results: `ra` and `rb` are what
/// `lookup_all` returned on each.
pub proof fn law_strategies_agree(
    a: Strategy<'_>,
    b: Strategy<'_>,
    queries: Seq<Vec<u8>>,
    ra: Seq<Option<String>>,
    rb: Seq<Option<String>>,
)
    requires
        a.wf(),
        b.wf(),
        a.source() == b.source(),
        ra.map_values(|o: Option<String>| value_view(o)) == results_spec(a.source(), queries),
        rb.map_values(|o: Option<String>| value_view(o)) == results_spec(b.source(), queries),
    ensures
        ra.len() == rb.len(),
        forall|i: int| 0 <= i < ra.len() ==> value_view(#[trigger] ra[i]) == value_view(rb[i]),
{
    let ma = ra.map_values(|o: Option<String>| value_view(o));
    let mb = rb.map_values(|o: Option<String>| value_view(o));
    assert(ma.len() == ra.len() && mb.len() == rb.len());
    assert forall|i: int| 0 <= i < ra.len() implies value_view(#[trigger] ra[i]) == value_view(rb[i]) by {
        assert(ma[i] == value_view(ra[i]));
        assert(mb[i] == value_view(rb[i]));
    }
}

/// The Eytzinger layout of a table, searched by walking heap children, gives
/// for every query, key or not, the result that binary search gives on the
/// sorted table: `re` and `rb` are what their `lookup` returned.
pub proof fn law_eytzinger_matches_binary_search(
    table: Pairs,
    e: EytzingerIndex,
    b: BinarySearchIndex<'_>,
    q: Seq<u8>,
    re: Option<String>,
    rb: Option<String>,
)
    requires
        e.wf(),
        b.wf(),
        e.source() == table,
        b.source() == table,
        value_view(re) == find_spec(e.source(), q),
        value_view(rb) == find_spec(b.source(), q),
    ensures
        value_view(re) == value_view(rb),
        has_key(table, q) ==> re is Some,
        !has_key(table, q) ==> re is None && rb is None,
{
}

} // verus!

//! The sorted entries laid out in breadth-first (Eytzinger) order: the node at
//! position `i` has its children at `2i+1` and `2i+2`.
use vstd::prelude::*;
use crate::bytes::{compare_keys, key_lt, lemma_cmp_antisym, lemma_cmp_eq, lemma_key_lt_trans, lemma_key_lt_irrefl};
use crate::table::{find_spec, has_key, lemma_find_at, lemma_sorted_unique, pairs, sorted_keys, value_view, Entry, EntityTable, Pairs};

verus! {

/// Position `j` lies in the subtree rooted at position `i`.
pub open spec fn in_sub(i: int, j: int) -> bool
    decreases j,
{
    if i < 0 || j < i {
        false
    } else if j == i {
        true
    } else {
        in_sub(i, (j - 1) / 2)
    }
}

/// The number of positions below `n` in the subtree rooted at `i`.
pub open spec fn sub_size(n: int, i: int) -> int
    decreases n - i,
{
    if i < 0 || i >= n {
        0
    } else {
        1 + (if 2 * i + 1 < n { sub_size(n, 2 * i + 1) } else { 0 }) + (if 2 * i + 2 < n {
            sub_size(n, 2 * i + 2)
        } else {
            0
        })
    }
}

proof fn lemma_size_nonneg(n: int, i: int)
    ensures
        sub_size(n, i) >= 0,
        i >= n ==> sub_size(n, i) == 0,
    decreases n - i,
{
    if 0 <= i < n {
        if 2 * i + 1 < n {
            lemma_size_nonneg(n, 2 * i + 1);
        }
        if 2 * i + 2 < n {
            lemma_size_nonneg(n, 2 * i + 2);
        }
    }
}

proof fn lemma_sub_children(i: int, j: int)
    requires
        in_sub(i, j),
        j != i,
    ensures
        in_sub(2 * i + 1, j) || in_sub(2 * i + 2, j),
    decreases j,
{
    let p = (j - 1) / 2;
    if p != i {
        lemma_sub_children(i, p);
        lemma_sub_le(2 * i + 1, p);
        lemma_sub_le(2 * i + 2, p);
    }
}

proof fn lemma_sub_le(i: int, j: int)
    ensures
        in_sub(i, j) ==> 0 <= i <= j,
{
}

/// A position below a child of `i` is below `i`.
proof fn lemma_sub_up(i: int, c: int, j: int)
    requires
        0 <= i,
        c == 2 * i + 1 || c == 2 * i + 2,
        in_sub(c, j),
    ensures
        in_sub(i, j),
    decreases j,
{
    assert((c - 1) / 2 == i);
    if j != c {
        assert(in_sub(c, (j - 1) / 2));
        lemma_sub_up(i, c, (j - 1) / 2);
        assert(in_sub(i, j) == in_sub(i, (j - 1) / 2));
    } else {
        assert(in_sub(i, i));
        assert(in_sub(i, c) == in_sub(i, (c - 1) / 2));
    }
}

/// Two subtrees that share a position are nested.
proof fn lemma_sub_nested(a: int, b: int, j: int)
    requires
        in_sub(a, j),
        in_sub(b, j),
    ensures
        in_sub(a, b) || in_sub(b, a),
    decreases j,
{
    if j != a && j != b {
        lemma_sub_nested(a, b, (j - 1) / 2);
    }
}

/// The two children's subtrees do not meet.
proof fn lemma_sub_disjoint(i: int, j: int)
    requires
        0 <= i,
    ensures
        !(in_sub(2 * i + 1, j) && in_sub(2 * i + 2, j)),
{
    if in_sub(2 * i + 1, j) && in_sub(2 * i + 2, j) {
        lemma_sub_nested(2 * i + 1, 2 * i + 2, j);
        assert(!in_sub(2 * i + 2, 2 * i + 1));
        assert(in_sub(2 * i + 1, 2 * i + 2) == in_sub(2 * i + 1, i));
    }
}

proof fn lemma_sub_root(j: int)
    requires
        0 <= j,
    ensures
        in_sub(0, j),
    decreases j,
{
    if j > 0 {
        lemma_sub_root((j - 1) / 2);
    }
}

proof fn lemma_size_step(n: int, i: int)
    requires
        0 <= n,
        0 <= i,
    ensures
        sub_size(n + 1, i) == sub_size(n, i) + (if in_sub(i, n) { 1int } else { 0int }),
    decreases n + 1 - i,
{
    lemma_sub_le(2 * i + 1, n);
    lemma_sub_le(2 * i + 2, n);
    lemma_size_nonneg(n, 2 * i + 1);
    lemma_size_nonneg(n, 2 * i + 2);
    lemma_size_nonneg(n + 1, 2 * i + 1);
    lemma_size_nonneg(n + 1, 2 * i + 2);
    if i < n {
        if 2 * i + 1 <= n {
            lemma_size_step(n, 2 * i + 1);
        }
        if 2 * i + 2 <= n {
            lemma_size_step(n, 2 * i + 2);
        }
        lemma_sub_disjoint(i, n);
        if in_sub(i, n) {
            lemma_sub_children(i, n);
        }
        if in_sub(2 * i + 1, n) {
            lemma_sub_up(i, 2 * i + 1, n);
        }
        if in_sub(2 * i + 2, n) {
            lemma_sub_up(i, 2 * i + 2, n);
        }
    } else if i == n {
        assert(sub_size(n + 1, 2 * i + 1) == 0);
        assert(sub_size(n + 1, 2 * i + 2) == 0);
    }
}

proof fn lemma_size_whole(n: int)
    requires
        0 <= n,
    ensures
        sub_size(n, 0) == n,
    decreases n,
{
    if n > 0 {
        lemma_size_whole(n - 1);
        lemma_size_step(n - 1, 0);
        lemma_sub_root(n - 1);
    }
}

/// Ranks increase from left subtree to node to right subtree.
pub open spec fn ranks_ordered(order: Seq<usize>, i: int) -> bool {
    &&& forall|p: int, j: int|
        0 <= p < order.len() && 0 <= j < order.len() && in_sub(i, p) && #[trigger] in_sub(2 * p + 1, j)
            ==> order[j] < order[p]
    &&& forall|p: int, j: int|
        0 <= p < order.len() && 0 <= j < order.len() && in_sub(i, p) && #[trigger] in_sub(2 * p + 2, j)
            ==> order[p] < order[j]
}

/// Some position in the subtree rooted at `i` holds the rank `a`.
pub open spec fn rank_placed(order: Seq<usize>, i: int, a: int) -> bool {
    exists|j: int| 0 <= j < order.len() && in_sub(i, j) && #[trigger] order[j] == a
}

/// Fills the subtree rooted at `i` with the ranks `next ..` in order.
fn fill(order: &mut Vec<usize>, i: usize, next: usize) -> (r: usize)
    requires
        next + sub_size(old(order)@.len() as int, i as int) <= old(order)@.len(),
    ensures
        final(order)@.len() == old(order)@.len(),
        r == next + sub_size(old(order)@.len() as int, i as int),
        forall|j: int| 0 <= j < final(order)@.len() && !in_sub(i as int, j) ==> final(order)@[j] == old(order)@[j],
        forall|j: int| 0 <= j < final(order)@.len() && in_sub(i as int, j) ==> next <= #[trigger] final(order)@[j] < r,
        forall|a: int| next <= a < r ==> #[trigger] rank_placed(final(order)@, i as int, a),
        ranks_ordered(final(order)@, i as int),
    decreases old(order)@.len() - i,
{
    let n = order.len();
    let ghost n0 = n as int;
    if i >= n {
        proof {
            assert forall|j: int| 0 <= j < n0 implies !in_sub(i as int, j) by { lemma_sub_le(i as int, j); }
        }
        return next;
    }
    if n - 1 - i <= i {
        proof {
            assert(sub_size(n0, 2 * i + 1) == 0);
            assert(sub_size(n0, 2 * i + 2) == 0);
            assert forall|j: int| 0 <= j < n0 && in_sub(i as int, j) implies j == i by {
                if j != i {
                    lemma_sub_children(i as int, j);
                    lemma_sub_le(2 * i + 1, j);
                    lemma_sub_le(2 * i + 2, j);
                }
            }
            assert forall|p: int, j: int|
                #![trigger in_sub(2 * p + 1, j)]
                #![trigger in_sub(2 * p + 2, j)]
                0 <= p < n0 && 0 <= j < n0 && in_sub(i as int, p) implies !in_sub(2 * p + 1, j) && !in_sub(2 * p + 2, j) by {
                lemma_sub_le(2 * p + 1, j);
                lemma_sub_le(2 * p + 2, j);
            }
        }
        order[i] = next;
        assert(ranks_ordered(order@, i as int));
        return next + 1;
    }
    proof {
        lemma_size_nonneg(n0, 2 * i + 1);
        lemma_size_nonneg(n0, 2 * i + 2);
    }
    let ghost o0 = order@;
    let left = 2 * i + 1;
    let right = 2 * i + 2;
    let m = fill(order, left, next);
    let ghost o1 = order@;
    order[i] = m;
    let ghost o2 = order@;
    let e = fill(order, right, m + 1);
    let ghost o3 = order@;
    proof {
        let ii = i as int;
        assert forall|j: int| 0 <= j < n0 && in_sub(left as int, j) implies o3[j] == o1[j] && j != ii by {
            lemma_sub_disjoint(ii, j);
            lemma_sub_le(left as int, j);
        }
        assert forall|j: int| 0 <= j < n0 && !in_sub(ii, j) implies o3[j] == o0[j] by {
            if in_sub(left as int, j) { lemma_sub_up(ii, left as int, j); }
            if in_sub(right as int, j) { lemma_sub_up(ii, right as int, j); }
        }
        lemma_sub_le(right as int, ii);
        assert(o3[ii] == m);
        assert forall|j: int| 0 <= j < n0 && in_sub(ii, j) implies next <= #[trigger] o3[j] < e by {
            if j != ii {
                lemma_sub_children(ii, j);
                lemma_sub_disjoint(ii, j);
            }
        }
        assert forall|a: int| next <= a < e implies #[trigger] rank_placed(o3, ii, a) by {
            if a < m {
                assert(rank_placed(o1, left as int, a));
                let j = choose|j: int| 0 <= j < n0 && in_sub(left as int, j) && #[trigger] o1[j] == a;
                lemma_sub_up(ii, left as int, j);
                assert(o3[j] == a);
            } else if a == m {
                lemma_sub_le(right as int, ii);
                assert(o3[ii] == a);
            } else {
                assert(rank_placed(o3, right as int, a));
                let j = choose|j: int| 0 <= j < n0 && in_sub(right as int, j) && #[trigger] o3[j] == a;
                lemma_sub_up(ii, right as int, j);
            }
        }
        assert forall|p: int, j: int|
            #![trigger in_sub(2 * p + 1, j)]
            #![trigger in_sub(2 * p + 2, j)]
            0 <= p < n0 && 0 <= j < n0 && in_sub(ii, p) implies (in_sub(2 * p + 1, j)
                ==> o3[j] < o3[p]) && (in_sub(2 * p + 2, j) ==> o3[p] < o3[j]) by {
            if p == ii {
                if in_sub(2 * p + 1, j) {
                    assert(in_sub(left as int, j));
                    assert(o3[j] == o1[j] && j != ii);
                    assert(next <= o1[j] < m);
                }
                if in_sub(2 * p + 2, j) {
                    assert(m + 1 <= o3[j]);
                }
            } else {
                lemma_sub_children(ii, p);
                if in_sub(left as int, p) {
                    lemma_sub_disjoint(ii, p);
                    lemma_sub_le(left as int, p);
                    if in_sub(2 * p + 1, j) {
                        lemma_sub_up(p, 2 * p + 1, j);
                        lemma_sub_trans(left as int, p, j);
                        assert(o3[j] == o1[j] && o3[p] == o1[p]);
                        assert(o1[j] < o1[p]);
                    }
                    if in_sub(2 * p + 2, j) {
                        lemma_sub_up(p, 2 * p + 2, j);
                        lemma_sub_trans(left as int, p, j);
                        assert(o3[j] == o1[j] && o3[p] == o1[p]);
                    }
                } else {
                    assert(in_sub(right as int, p));
                    if in_sub(2 * p + 1, j) {
                        assert(o3[j] < o3[p]);
                    }
                }
            }
        }
        assert(ranks_ordered(o3, ii));
    }
    e
}

proof fn lemma_sub_trans(a: int, b: int, j: int)
    requires
        in_sub(a, b),
        in_sub(b, j),
    ensures
        in_sub(a, j),
    decreases j,
{
    if j != b {
        lemma_sub_le(b, j);
        lemma_sub_le(a, b);
        lemma_sub_trans(a, b, (j - 1) / 2);
    }
}

/// The sorted entries rearranged so that a search walks down a heap.
pub struct EytzingerIndex {
    layout: Vec<Entry>,
    order: Ghost<Seq<usize>>,
    source: Ghost<Pairs>,
}

impl EytzingerIndex {
    /// Position `j` of the layout holds the entry of rank `order[j]` in the
    /// sorted source, every rank is placed, and ranks follow the heap order.
    pub closed spec fn wf(&self) -> bool {
        let n = self.source@.len();
        &&& sorted_keys(self.source@)
        &&& self.layout@.len() == n
        &&& self.order@.len() == n
        &&& forall|j: int| 0 <= j < n ==> #[trigger] self.order@[j] < n && pairs(self.layout@)[j] == self.source@[self.order@[j] as int]
        &&& forall|a: int| 0 <= a < n ==> #[trigger] rank_placed(self.order@, 0, a)
        &&& ranks_ordered(self.order@, 0)
    }

    /// The pairs that the index answers from.
    pub closed spec fn source(&self) -> Pairs {
        self.source@
    }

    pub fn build(table: &EntityTable) -> (r: EytzingerIndex)
        requires
            table.wf(),
        ensures
            r.wf(),
            r.source() == table@,
    {
        let src = table.entries();
        let n = src.len();
        let mut order: Vec<usize> = Vec::new();
        while order.len() < n
            invariant
                order@.len() <= n,
            decreases n - order@.len(),
        {
            order.push(0);
        }
        proof {
            lemma_size_whole(n as int);
        }
        fill(&mut order, 0, 0);
        proof {
            assert forall|j: int| 0 <= j < n implies #[trigger] order@[j] < n by {
                lemma_sub_root(j);
            }
        }
        let mut layout: Vec<Entry> = Vec::new();
        let mut j: usize = 0;
        while j < n
            invariant
                j <= n,
                n == src@.len(),
                order@.len() == n,
                layout@.len() == j,
                forall|k: int| 0 <= k < n ==> #[trigger] order@[k] < n,
                forall|k: int| 0 <= k < j ==> #[trigger] pairs(layout@)[k] == pairs(src@)[order@[k] as int],
            decreases n - j,
        {
            let ghost prev = layout@;
            let e = src[order[j]].clone_entry();
            layout.push(e);
            proof {
                assert forall|k: int| 0 <= k < j + 1 implies #[trigger] pairs(layout@)[k] == pairs(src@)[order@[k] as int] by {
                    assert(pairs(layout@)[k] == (layout@[k].key@, layout@[k].value@));
                    assert(pairs(src@)[order@[k] as int] == (src@[order@[k] as int].key@, src@[order@[k] as int].value@));
                    if k < j {
                        assert(layout@[k] == prev[k]);
                        assert(pairs(prev)[k] == (prev[k].key@, prev[k].value@));
                    }
                }
            }
            j = j + 1;
        }
        EytzingerIndex { layout, order: Ghost(order@), source: Ghost(table@) }
    }

    /// Walks from the root towards the key; stops on a match or below a leaf.
    pub fn lookup(&self, q: &[u8]) -> (r: Option<String>)
        requires
            self.wf(),
        ensures
            value_view(r) == find_spec(self.source(), q@),
    {
        let ghost s = self.source@;
        let ghost order = self.order@;
        let ghost lay = pairs(self.layout@);
        let n = self.layout.len();
        let mut i: usize = 0;
        proof {
            assert forall|j: int| 0 <= j < n && #[trigger] lay[j].0 == q@ implies in_sub(0, j) by {
                lemma_sub_root(j);
            }
        }
        while i < n
            invariant
                self.wf(),
                n == lay.len(),
                s == self.source@,
                order == self.order@,
                lay == pairs(self.layout@),
                forall|j: int| 0 <= j < n && #[trigger] lay[j].0 == q@ ==> in_sub(i as int, j),
            decreases n - i,
        {
            assert(lay[i as int] == (self.layout@[i as int].key@, self.layout@[i as int].value@));
            let c = compare_keys(self.layout[i].key.as_slice(), q);
            if c == 0 {
                proof {
                    lemma_cmp_eq(lay[i as int].0, q@);
                    lemma_sorted_unique(s);
                    lemma_find_at(s, order[i as int] as int);
                }
                return Some(self.layout[i].value.clone());
            }
            if n - 1 - i <= i {
                proof {
                    assert forall|j: int| 0 <= j < n implies #[trigger] lay[j].0 != q@ by {
                        if lay[j].0 == q@ {
                            lemma_cmp_eq(lay[i as int].0, q@);
                            lemma_sub_children(i as int, j);
                            lemma_sub_le(2 * i + 1, j);
                            lemma_sub_le(2 * i + 2, j);
                        }
                    }
                    self.lemma_absent(q@);
                }
                return None;
            }
            let ghost ii = i as int;
            if c > 0 {
                proof {
                    lemma_cmp_antisym(lay[ii].0, q@, 0);
                    assert forall|j: int| 0 <= j < n && #[trigger] lay[j].0 == q@ implies in_sub(2 * ii + 1, j) by {
                        lemma_cmp_eq(lay[ii].0, q@);
                        lemma_sub_children(ii, j);
                        if in_sub(2 * ii + 2, j) {
                            self.lemma_heap_keys(ii, j);
                            lemma_key_lt_trans(q@, lay[ii].0, q@);
                            lemma_key_lt_irrefl(q@);
                        }
                    }
                }
                i = 2 * i + 1;
            } else {
                proof {
                    assert forall|j: int| 0 <= j < n && #[trigger] lay[j].0 == q@ implies in_sub(2 * ii + 2, j) by {
                        lemma_cmp_eq(lay[ii].0, q@);
                        lemma_sub_children(ii, j);
                        if in_sub(2 * ii + 1, j) {
                            self.lemma_heap_keys(ii, j);
                            lemma_key_lt_trans(q@, lay[ii].0, q@);
                            lemma_key_lt_irrefl(q@);
                        }
                    }
                }
                i = 2 * i + 2;
            }
        }
        proof {
            assert forall|j: int| 0 <= j < n implies #[trigger] lay[j].0 != q@ by {
                lemma_sub_le(i as int, j);
            }
            self.lemma_absent(q@);
        }
        None
    }

    /// Keys below the left child of `p` sort before the key at `p`, and keys
    /// below its right child after it.
    proof fn lemma_heap_keys(&self, p: int, j: int)
        requires
            self.wf(),
            0 <= p < self.layout@.len(),
            0 <= j < self.layout@.len(),
        ensures
            in_sub(2 * p + 1, j) ==> key_lt(pairs(self.layout@)[j].0, pairs(self.layout@)[p].0),
            in_sub(2 * p + 2, j) ==> key_lt(pairs(self.layout@)[p].0, pairs(self.layout@)[j].0),
    {
        lemma_sub_root(p);
        let o = self.order@;
        assert(o[j] < self.layout@.len() && o[p] < self.layout@.len());
    }

    /// A key missing from the layout is missing from the source.
    proof fn lemma_absent(&self, q: Seq<u8>)
        requires
            self.wf(),
            forall|j: int| 0 <= j < self.layout@.len() ==> #[trigger] pairs(self.layout@)[j].0 != q,
        ensures
            find_spec(self.source(), q) == None::<Seq<char>>,
    {
        let s = self.source@;
        if has_key(s, q) {
            let a = choose|a: int| 0 <= a < s.len() && #[trigger] s[a].0 == q;
            assert(rank_placed(self.order@, 0, a));
            let j = choose|j: int| 0 <= j < self.order@.len() && in_sub(0, j) && #[trigger] self.order@[j] == a;
            assert(pairs(self.layout@)[j].0 == q);
        }
    }
}

} // verus!

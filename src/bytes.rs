//! Byte-lexicographic order on keys.
use vstd::prelude::*;

verus! {

/// Three-way comparison of `a` and `b` from position `i` on:
/// -1 when `a` sorts first, 0 when the remainders are equal, 1 otherwise.
pub open spec fn cmp_from(a: Seq<u8>, b: Seq<u8>, i: int) -> int
    decreases a.len() - i,
{
    if i >= a.len() {
        if i >= b.len() { 0 } else { -1 }
    } else if i >= b.len() {
        1
    } else if a[i] < b[i] {
        -1
    } else if a[i] > b[i] {
        1
    } else {
        cmp_from(a, b, i + 1)
    }
}

/// `a` sorts strictly before `b` in byte-lexicographic order.
pub open spec fn key_lt(a: Seq<u8>, b: Seq<u8>) -> bool {
    cmp_from(a, b, 0) < 0
}

pub proof fn lemma_cmp_antisym(a: Seq<u8>, b: Seq<u8>, i: int)
    requires
        0 <= i,
    ensures
        cmp_from(a, b, i) == -cmp_from(b, a, i),
    decreases a.len() - i,
{
    if i < a.len() && i < b.len() && a[i] == b[i] {
        lemma_cmp_antisym(a, b, i + 1);
    }
}

pub proof fn lemma_cmp_zero(a: Seq<u8>, b: Seq<u8>, i: int)
    requires
        0 <= i <= a.len(),
        i <= b.len(),
    ensures
        (cmp_from(a, b, i) == 0) <==> (a.len() == b.len() && forall|j: int|
            i <= j < a.len() ==> a[j] == b[j]),
    decreases a.len() - i,
{
    if i < a.len() && i < b.len() && a[i] == b[i] {
        lemma_cmp_zero(a, b, i + 1);
    }
}

/// Equal keys compare equal, and only they do.
pub proof fn lemma_cmp_eq(a: Seq<u8>, b: Seq<u8>)
    ensures
        (cmp_from(a, b, 0) == 0) <==> a == b,
{
    lemma_cmp_zero(a, b, 0);
    if cmp_from(a, b, 0) == 0 {
        assert(a =~= b);
    }
}

pub proof fn lemma_cmp_trans(a: Seq<u8>, b: Seq<u8>, c: Seq<u8>, i: int)
    requires
        0 <= i,
        cmp_from(a, b, i) < 0,
        cmp_from(b, c, i) < 0,
    ensures
        cmp_from(a, c, i) < 0,
    decreases a.len() - i,
{
    if i < a.len() && i < b.len() && i < c.len() && a[i] == b[i] && b[i] == c[i] {
        lemma_cmp_trans(a, b, c, i + 1);
    }
}

/// `key_lt` is a strict order.
pub proof fn lemma_key_lt_trans(a: Seq<u8>, b: Seq<u8>, c: Seq<u8>)
    requires
        key_lt(a, b),
        key_lt(b, c),
    ensures
        key_lt(a, c),
{
    lemma_cmp_trans(a, b, c, 0);
}

pub proof fn lemma_key_lt_irrefl(a: Seq<u8>)
    ensures
        !key_lt(a, a),
{
    lemma_cmp_eq(a, a);
}

/// Compares two keys byte by byte.
pub fn compare_keys(a: &[u8], b: &[u8]) -> (r: i8)
    ensures
        r as int == cmp_from(a@, b@, 0),
{
    let mut i: usize = 0;
    while i < a.len() && i < b.len()
        invariant
            0 <= i <= a@.len(),
            i <= b@.len(),
            cmp_from(a@, b@, i as int) == cmp_from(a@, b@, 0),
        decreases a@.len() - i,
    {
        if a[i] < b[i] {
            return -1;
        } else if a[i] > b[i] {
            return 1;
        }
        i = i + 1;
    }
    if i < b.len() {
        -1
    } else if i < a.len() {
        1
    } else {
        0
    }
}

/// Whether two keys hold the same bytes.
pub fn keys_equal(a: &[u8], b: &[u8]) -> (r: bool)
    ensures
        r == (a@ == b@),
{
    proof {
        lemma_cmp_eq(a@, b@);
    }
    compare_keys(a, b) == 0
}

} // verus!

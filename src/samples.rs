//! Reproducible query samples: keys drawn from the table, mixed with
//! synthesized keys that the table does not hold, then shuffled.
use vstd::prelude::*;
use rand::distributions::{Alphanumeric, Distribution, Uniform};
use rand::seq::SliceRandom;
use rand::SeedableRng;
use rand_xoshiro::Xoshiro256Plus;
use crate::table::{has_key, pairs, EntityTable, Entry};

verus! {

#[verifier::external_type_specification]
#[verifier::external_body]
pub struct ExXoshiro256Plus(Xoshiro256Plus);

/// Shortest synthesized key.
pub const ABSENT_MIN_LEN: usize = 2;
/// One past the longest synthesized key.
pub const ABSENT_MAX_LEN: usize = 6;
/// Candidates tried for one absent key before giving up.
pub const MAX_ATTEMPTS: usize = 1000;
/// Characters drawn for one candidate before giving up.
pub const MAX_DRAWS: usize = 1000;

pub open spec fn is_ascii_alphabetic(c: u8) -> bool {
    (65 <= c <= 90) || (97 <= c <= 122)
}

pub open spec fn is_ascii_alphanumeric(c: u8) -> bool {
    is_ascii_alphabetic(c) || (48 <= c <= 57)
}

/// A synthesized key: 2 to 5 ASCII letters.
pub open spec fn synthetic_shape(s: Seq<u8>) -> bool {
    &&& ABSENT_MIN_LEN <= s.len() < ABSENT_MAX_LEN
    &&& forall|k: int| 0 <= k < s.len() ==> is_ascii_alphabetic(#[trigger] s[k])
}

/// Relies on `Xoshiro256Plus::from_seed`: a generator whose stream is fixed by the seed.
#[verifier::external_body]
fn seeded_rng(seed: [u8; 32]) -> Xoshiro256Plus {
    Xoshiro256Plus::from_seed(seed)
}

/// Relies on `SliceRandom::choose`: one element of the slice, `None` only
/// when it is empty.
#[verifier::external_body]
fn choose_entry<'a>(entries: &'a Vec<Entry>, rng: &mut Xoshiro256Plus) -> (r: Option<&'a Entry>)
    ensures
        r is None <==> entries@.len() == 0,
        r matches Some(e) ==> exists|i: int| 0 <= i < entries@.len() && e.key@ == #[trigger] entries@[i].key@,
{
    entries.as_slice().choose(rng)
}

/// Relies on `Uniform::new(lo, hi).sample`: a value in `[lo, hi)`; `new`
/// panics unless `lo < hi`.
#[verifier::external_body]
fn draw_in_range(lo: usize, hi: usize, rng: &mut Xoshiro256Plus) -> (r: usize)
    requires
        lo < hi,
    ensures
        lo <= r < hi,
{
    Uniform::new(lo, hi).sample(rng)
}

/// Relies on `Alphanumeric`: a byte among `A-Z`, `a-z` and `0-9`.
#[verifier::external_body]
fn draw_alphanumeric(rng: &mut Xoshiro256Plus) -> (r: u8)
    ensures
        is_ascii_alphanumeric(r),
{
    Alphanumeric.sample(rng)
}

/// Relies on `SliceRandom::shuffle`: the same elements, reordered.
#[verifier::external_body]
fn shuffle_samples(v: &mut Vec<Vec<u8>>, rng: &mut Xoshiro256Plus)
    ensures
        final(v)@.to_multiset() == old(v)@.to_multiset(),
        final(v)@.len() == old(v)@.len(),
{
    v.as_mut_slice().shuffle(rng)
}

/// Why samples could not be generated.
#[derive(Debug, Clone, Copy, PartialEq, Eq, Structural)]
pub enum SampleError {
    /// Keys were asked of an empty table.
    EmptyTable,
    /// No absent key turned up within the allowed attempts.
    Exhausted,
}

/// The letters among `draws`, in order, keeping no more than `len` of them.
pub open spec fn kept_letters(draws: Seq<u8>, len: nat) -> Seq<u8>
    decreases draws.len(),
{
    if draws.len() == 0 {
        Seq::empty()
    } else {
        let p = kept_letters(draws.drop_last(), len);
        if is_ascii_alphabetic(draws.last()) && p.len() < len {
            p.push(draws.last())
        } else {
            p
        }
    }
}

/// The candidate that a drawn length and drawn characters give: the first
/// `len` letters, provided they turned up within the allowed draws.
pub open spec fn candidate_spec(len: nat, draws: Seq<u8>) -> Option<Seq<u8>> {
    if draws.len() <= MAX_DRAWS && kept_letters(draws, len).len() == len {
        Some(kept_letters(draws, len))
    } else {
        None
    }
}

pub open spec fn bytes_view(r: Option<Vec<u8>>) -> Option<Seq<u8>> {
    match r {
        Some(v) => Some(v@),
        None => None,
    }
}

/// Turns the drawn length and characters into a candidate key.
pub fn candidate_from_draws(len: usize, draws: &Vec<u8>) -> (r: Option<Vec<u8>>)
    ensures
        bytes_view(r) == candidate_spec(len as nat, draws@),
        r matches Some(v) ==> forall|k: int| 0 <= k < v@.len() ==> is_ascii_alphabetic(#[trigger] v@[k]),
{
    let mut bytes: Vec<u8> = Vec::new();
    let mut k: usize = 0;
    while k < draws.len()
        invariant
            k <= draws@.len(),
            bytes@ == kept_letters(draws@.take(k as int), len as nat),
            bytes@.len() <= len,
            forall|m: int| 0 <= m < bytes@.len() ==> is_ascii_alphabetic(#[trigger] bytes@[m]),
        decreases draws@.len() - k,
    {
        let c = draws[k];
        proof {
            assert(draws@.take(k + 1).drop_last() =~= draws@.take(k as int));
            assert(draws@.take(k + 1).last() == c);
        }
        if ((65 <= c && c <= 90) || (97 <= c && c <= 122)) && bytes.len() < len {
            bytes.push(c);
        }
        k = k + 1;
    }
    assert(draws@.take(draws@.len() as int) =~= draws@);
    if draws.len() <= MAX_DRAWS && bytes.len() == len {
        Some(bytes)
    } else {
        None
    }
}

/// Draws one candidate: a length in `[2, 6)`, then alphanumeric characters
/// until that many letters have turned up or the allowed draws are spent.
fn draw_candidate(rng: &mut Xoshiro256Plus) -> (r: Option<Vec<u8>>)
    ensures
        r matches Some(s) ==> synthetic_shape(s@),
{
    let len = draw_in_range(ABSENT_MIN_LEN, ABSENT_MAX_LEN, rng);
    let mut draws: Vec<u8> = Vec::new();
    let mut letters: usize = 0;
    while letters < len && draws.len() < MAX_DRAWS
        invariant
            draws@.len() <= MAX_DRAWS,
            letters <= draws@.len(),
        decreases MAX_DRAWS - draws@.len(),
    {
        let c = draw_alphanumeric(rng);
        draws.push(c);
        if (65 <= c && c <= 90) || (97 <= c && c <= 122) {
            letters = letters + 1;
        }
    }
    candidate_from_draws(len, &draws)
}

/// A key of the table, drawn at random, or `None` when the table is empty.
fn draw_present(table: &EntityTable, rng: &mut Xoshiro256Plus) -> (r: Option<Vec<u8>>)
    ensures
        r is None <==> table@.len() == 0,
        r matches Some(s) ==> has_key(table@, s@),
{
    let entries = table.entries();
    match choose_entry(entries, rng) {
        Some(e) => {
            let k = e.key.clone();
            proof {
                let i = choose|i: int| 0 <= i < entries@.len() && e.key@ == #[trigger] entries@[i].key@;
                assert(pairs(entries@)[i].0 == entries@[i].key@);
            }
            Some(k)
        },
        None => None,
    }
}

/// What a generated sample sequence holds before shuffling: `present` keys
/// of the table, then `absent` synthesized keys that the table lacks.
pub open spec fn unshuffled(t: crate::table::Pairs, pre: Seq<Vec<u8>>, present: int, absent: int) -> bool {
    &&& pre.len() == present + absent
    &&& forall|i: int| 0 <= i < present ==> has_key(t, (#[trigger] pre[i])@)
    &&& forall|i: int| present <= i < present + absent ==> !has_key(t, (#[trigger] pre[i])@) && synthetic_shape(pre[i]@)
}

/// Draws `present` table keys, then `absent` keys that the table lacks
/// (rejecting candidates that it holds), then shuffles them all, with one
/// generator seeded by `seed`.
pub fn generate_samples(table: &EntityTable, seed: [u8; 32], present: usize, absent: usize) -> (r: Result<Vec<Vec<u8>>, SampleError>)
    requires
        table.wf(),
        present + absent <= usize::MAX,
    ensures
        match r {
            Ok(v) => exists|pre: Seq<Vec<u8>>| #[trigger] unshuffled(table@, pre, present as int, absent as int)
                && v@.to_multiset() == pre.to_multiset() && v@.len() == pre.len(),
            Err(e) => e == SampleError::EmptyTable <==> (present > 0 && table@.len() == 0),
        },
            absent == 0 && !(present > 0 && table@.len() == 0) ==> r is Ok,
{
    let mut rng = seeded_rng(seed);
    let mut samples: Vec<Vec<u8>> = Vec::new();
    let mut i: usize = 0;
    while i < present
        invariant
            i <= present,
            table.wf(),
            i > 0 ==> table@.len() > 0,
            samples@.len() == i,
            forall|k: int| 0 <= k < i ==> has_key(table@, (#[trigger] samples@[k])@),
        decreases present - i,
    {
        match draw_present(table, &mut rng) {
            Some(s) => samples.push(s),
            None => return Err(SampleError::EmptyTable),
        }
        i = i + 1;
    }
    let mut j: usize = 0;
    while j < absent
        invariant
            j <= absent,
            table.wf(),
            present + absent <= usize::MAX,
            samples@.len() == present + j,
            forall|k: int| 0 <= k < present ==> has_key(table@, (#[trigger] samples@[k])@),
            forall|k: int| present <= k < present + j ==> !has_key(table@, (#[trigger] samples@[k])@) && synthetic_shape(samples@[k]@),
            !(present > 0 && table@.len() == 0),
        decreases absent - j,
    {
        let mut found: Option<Vec<u8>> = None;
        let mut attempt: usize = 0;
        while found.is_none()
            invariant
                found matches Some(s) ==> !has_key(table@, s@) && synthetic_shape(s@),
                table.wf(),
                !(present > 0 && table@.len() == 0),
                j < absent,
            decreases MAX_ATTEMPTS - attempt,
        {
            if attempt >= MAX_ATTEMPTS {
                return Err(SampleError::Exhausted);
            }
            attempt = attempt + 1;
            match draw_candidate(&mut rng) {
                Some(c) => {
                    if table.find_exact(c.as_slice()).is_none() {
                        found = Some(c);
                    }
                },
                None => return Err(SampleError::Exhausted),
            }
        }
        match found {
            Some(s) => samples.push(s),
            None => {},
        }
        j = j + 1;
    }
    let ghost pre = samples@;
    shuffle_samples(&mut samples, &mut rng);
    assert(unshuffled(table@, pre, present as int, absent as int));
    Ok(samples)
}

} // verus!

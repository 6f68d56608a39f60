use static_lookup::bytes::{compare_keys, keys_equal};
use static_lookup::bsearch::BinarySearchIndex;
use static_lookup::eytzinger::EytzingerIndex;
use static_lookup::hashed::{hash_bytes, HashFamily, HashIndex};
use static_lookup::matcher::BranchMatcher;
use static_lookup::perfect::{phf_index, PerfectHashIndex};
use static_lookup::strategy::{Strategy, StrategyKind};
use static_lookup::table::{EntityTable, Entry, TableError};
use static_lookup::tree::TreeIndex;

fn table_of(pairs: &[(&str, &str)]) -> EntityTable {
    let entries = pairs
        .iter()
        .map(|(k, v)| Entry::new(k.as_bytes().to_vec(), v.to_string()))
        .collect();
    EntityTable::new(entries).expect("sorted table")
}

fn animals() -> EntityTable {
    table_of(&[("cat", "feline"), ("dog", "canine"), ("fox", "vulpine")])
}

fn all_kinds() -> Vec<StrategyKind> {
    vec![
        StrategyKind::Branch,
        StrategyKind::BinarySearch,
        StrategyKind::Eytzinger,
        StrategyKind::Hash(HashFamily::Sip),
        StrategyKind::Hash(HashFamily::Sea),
        StrategyKind::Hash(HashFamily::Fnv),
        StrategyKind::OrderedTree,
        StrategyKind::PerfectHash,
    ]
}

/// A sorted table of `n` distinct keys of varied lengths.
fn numbered_table(n: usize) -> EntityTable {
    let mut keys: Vec<String> = (0..n).map(|i| format!("k{}", i * 7919 % 100003)).collect();
    keys.sort();
    keys.dedup();
    let entries = keys
        .iter()
        .map(|k| Entry::new(k.as_bytes().to_vec(), format!("v-{}", k)))
        .collect();
    EntityTable::new(entries).expect("sorted table")
}

#[test]
fn scenario_dog_and_owl_on_every_strategy() {
    let t = animals();
    for kind in all_kinds() {
        let s = Strategy::build(&t, kind).expect("builds");
        assert_eq!(s.lookup(b"dog"), Some("canine".to_string()), "{:?}", kind);
        assert_eq!(s.lookup(b"owl"), None, "{:?}", kind);
    }
    assert_eq!(t.find_exact(b"dog"), Some("canine".to_string()));
    assert_eq!(t.find_exact(b"owl"), None);
}

#[test]
fn direct_structures_answer_like_the_reference() {
    let t = animals();
    let b = BranchMatcher::build(&t);
    let s = BinarySearchIndex::build(&t);
    let e = EytzingerIndex::build(&t);
    let h = HashIndex::build(&t, HashFamily::Fnv);
    let r = TreeIndex::build(&t);
    let p = PerfectHashIndex::build(&t).expect("perfect hash");
    for q in [&b"cat"[..], b"dog", b"fox", b"ca", b"cats", b"", b"owl", b"zzz"] {
        let want = t.find_exact(q);
        assert_eq!(b.lookup(q), want);
        assert_eq!(s.lookup(q), want);
        assert_eq!(e.lookup(q), want);
        assert_eq!(h.lookup(q), want);
        assert_eq!(r.lookup(q), want);
        assert_eq!(p.lookup(q), want);
    }
    assert_eq!(h.family(), HashFamily::Fnv);
}

#[test]
fn every_key_found_by_every_strategy() {
    for n in [0usize, 1, 2, 3, 7, 8, 15, 16, 31, 100, 257] {
        let t = numbered_table(n);
        for kind in all_kinds() {
            let s = Strategy::build(&t, kind).expect("builds");
            for e in t.entries() {
                assert_eq!(s.lookup(&e.key), Some(e.value.clone()), "{:?} n={}", kind, n);
                assert_eq!(s.lookup(&e.key), t.find_exact(&e.key));
            }
            assert_eq!(s.lookup(b"absent"), None);
            assert_eq!(s.lookup(b"k"), None);
        }
    }
}

#[test]
fn eytzinger_agrees_with_binary_search() {
    for n in 0usize..40 {
        let t = numbered_table(n);
        let e = EytzingerIndex::build(&t);
        let b = BinarySearchIndex::build(&t);
        for e2 in t.entries() {
            assert_eq!(e.lookup(&e2.key), b.lookup(&e2.key));
            let mut probe = e2.key.clone();
            probe.push(b'!');
            assert_eq!(e.lookup(&probe), b.lookup(&probe));
            assert_eq!(e.lookup(&probe), None);
        }
        assert_eq!(e.lookup(b""), b.lookup(b""));
    }
}

#[test]
fn repeated_lookups_give_the_same_result() {
    let t = animals();
    for kind in all_kinds() {
        let s = Strategy::build(&t, kind).expect("builds");
        let first = s.lookup(b"fox");
        for _ in 0..5 {
            assert_eq!(s.lookup(b"fox"), first);
            assert_eq!(s.lookup(b"owl"), None);
        }
    }
}

#[test]
fn unsorted_table_is_refused() {
    let entries = vec![
        Entry::new(b"dog".to_vec(), "canine".to_string()),
        Entry::new(b"cat".to_vec(), "feline".to_string()),
    ];
    assert!(matches!(EntityTable::new(entries), Err(TableError::NotSorted { index: 0 })));
}

#[test]
fn duplicate_key_is_refused() {
    let entries = vec![
        Entry::new(b"cat".to_vec(), "a".to_string()),
        Entry::new(b"dog".to_vec(), "b".to_string()),
        Entry::new(b"dog".to_vec(), "c".to_string()),
    ];
    assert!(matches!(EntityTable::new(entries), Err(TableError::NotSorted { index: 1 })));
}

#[test]
fn empty_table_answers_nothing() {
    let t = EntityTable::new(Vec::new()).expect("empty is sorted");
    assert_eq!(t.len(), 0);
    for kind in all_kinds() {
        let s = Strategy::build(&t, kind).expect("builds");
        assert_eq!(s.lookup(b"cat"), None);
        assert_eq!(s.lookup(b""), None);
    }
}

#[test]
fn empty_key_is_a_key_like_any_other() {
    let t = table_of(&[("", "empty"), ("a", "one")]);
    for kind in all_kinds() {
        let s = Strategy::build(&t, kind).expect("builds");
        assert_eq!(s.lookup(b""), Some("empty".to_string()));
        assert_eq!(s.lookup(b"a"), Some("one".to_string()));
        assert_eq!(s.lookup(b"b"), None);
    }
}

#[test]
fn byte_order_is_lexicographic() {
    assert_eq!(compare_keys(b"ab", b"abc"), -1);
    assert_eq!(compare_keys(b"abc", b"ab"), 1);
    assert_eq!(compare_keys(b"abd", b"abc"), 1);
    assert_eq!(compare_keys(b"abc", b"abc"), 0);
    assert_eq!(compare_keys(b"", b""), 0);
    assert_eq!(compare_keys(b"B", b"a"), -1);
    assert!(keys_equal(b"cat", b"cat"));
    assert!(!keys_equal(b"cat", b"car"));
}

#[test]
fn fnv_digest_is_fnv1a() {
    assert_eq!(hash_bytes(HashFamily::Fnv, b""), 0xcbf29ce484222325);
    assert_eq!(hash_bytes(HashFamily::Fnv, b"a"), 0xaf63dc4c8601ec8c);
}

#[test]
fn sip_and_sea_digests_depend_on_the_bytes() {
    for f in [HashFamily::Sip, HashFamily::Sea] {
        assert_eq!(hash_bytes(f, b"cat"), hash_bytes(f, b"cat"));
        assert_ne!(hash_bytes(f, b"cat"), hash_bytes(f, b"dog"));
    }
    assert_ne!(hash_bytes(HashFamily::Sip, b"cat"), hash_bytes(HashFamily::Sea, b"cat"));
}

#[test]
fn phf_slot_formula() {
    let disps = vec![(1u32, 2u32), (5, 7)];
    assert_eq!(phf_index((0, 3, 4), &disps, 10), 9);
    assert_eq!(phf_index((1, 3, 4), &disps, 10), 6);
    assert_eq!(phf_index((1, u32::MAX, 0), &vec![(2u32, 0u32)], 1000), ((u32::MAX.wrapping_mul(2)) % 1000));
}

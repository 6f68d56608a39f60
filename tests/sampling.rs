use static_lookup::samples::{candidate_from_draws, generate_samples, SampleError, MAX_DRAWS};
use static_lookup::strategy::{Strategy, StrategyKind};
use static_lookup::hashed::HashFamily;
use static_lookup::table::{EntityTable, Entry};

fn animals() -> EntityTable {
    let entries = vec![
        Entry::new(b"cat".to_vec(), "feline".to_string()),
        Entry::new(b"dog".to_vec(), "canine".to_string()),
        Entry::new(b"fox".to_vec(), "vulpine".to_string()),
    ];
    EntityTable::new(entries).expect("sorted")
}

#[test]
fn seed_42_ten_samples_reproducible() {
    let t = animals();
    let a = generate_samples(&t, [42u8; 32], 9, 1).expect("samples");
    let b = generate_samples(&t, [42u8; 32], 9, 1).expect("samples");
    assert_eq!(a, b);
    assert_eq!(a.len(), 10);
    let hits = a.iter().filter(|s| t.find_exact(s).is_some()).count();
    assert_eq!(hits, 9);
    for s in &a {
        if t.find_exact(s).is_none() {
            assert!(s.len() >= 2 && s.len() < 6);
            assert!(s.iter().all(|c| c.is_ascii_alphabetic()));
        }
    }
}

#[test]
fn hundred_samples_ninety_hits() {
    let t = animals();
    let a = generate_samples(&t, [42u8; 32], 90, 10).expect("samples");
    assert_eq!(a.len(), 100);
    assert_eq!(a.iter().filter(|s| t.find_exact(s).is_some()).count(), 90);
    assert_eq!(a, generate_samples(&t, [42u8; 32], 90, 10).expect("samples"));
}

#[test]
fn other_seed_other_order() {
    let t = animals();
    let a = generate_samples(&t, [42u8; 32], 90, 10).expect("samples");
    let b = generate_samples(&t, [7u8; 32], 90, 10).expect("samples");
    assert_ne!(a, b);
}

#[test]
fn absent_samples_miss_everywhere_and_strategies_agree() {
    let t = animals();
    let samples = generate_samples(&t, [42u8; 32], 90, 10).expect("samples");
    let kinds = [
        StrategyKind::Branch,
        StrategyKind::BinarySearch,
        StrategyKind::Eytzinger,
        StrategyKind::Hash(HashFamily::Sip),
        StrategyKind::Hash(HashFamily::Sea),
        StrategyKind::Hash(HashFamily::Fnv),
        StrategyKind::OrderedTree,
        StrategyKind::PerfectHash,
    ];
    let reference: Vec<Option<String>> = samples.iter().map(|s| t.find_exact(s)).collect();
    for kind in kinds {
        let s = Strategy::build(&t, kind).expect("builds");
        assert_eq!(s.lookup_all(&samples), reference, "{:?}", kind);
    }
}

#[test]
fn keys_from_an_empty_table_fail() {
    let t = EntityTable::new(Vec::new()).expect("empty");
    assert_eq!(generate_samples(&t, [42u8; 32], 1, 0), Err(SampleError::EmptyTable));
    let only_absent = generate_samples(&t, [42u8; 32], 0, 3).expect("absent only");
    assert_eq!(only_absent.len(), 3);
}

#[test]
fn candidate_keeps_the_first_letters() {
    assert_eq!(candidate_from_draws(3, &b"a1B2c".to_vec()), Some(b"aBc".to_vec()));
    assert_eq!(candidate_from_draws(2, &b"xyz".to_vec()), Some(b"xy".to_vec()));
    assert_eq!(candidate_from_draws(3, &b"a1".to_vec()), None);
    assert_eq!(candidate_from_draws(0, &Vec::new()), Some(Vec::new()));
}

#[test]
fn candidate_gives_up_after_the_allowed_draws() {
    let mut draws = vec![b'7'; MAX_DRAWS - 2];
    draws.extend_from_slice(b"ab");
    assert_eq!(candidate_from_draws(2, &draws), Some(b"ab".to_vec()));
    draws.push(b'c');
    assert_eq!(candidate_from_draws(2, &draws), None);
}

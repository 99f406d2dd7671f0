use std::collections::HashSet;
use styled::namegen::{generate_callsite_hash, NameGenerator};

#[test]
fn generator_counts_up() {
    let mut g = NameGenerator::new();
    assert_eq!(g.generate_class_name(), "styled-0");
    assert_eq!(g.generate_class_name(), "styled-1");
    assert_eq!(g.generate_class_name(), "styled-2");
    assert_eq!(g.counter, 3);
}

#[test]
fn generator_renders_larger_counters() {
    let mut g = NameGenerator { counter: 41 };
    assert_eq!(g.generate_class_name(), "styled-41");
    let mut g = NameGenerator { counter: 90710 };
    assert_eq!(g.generate_class_name(), "styled-90710");
}

#[test]
fn generator_names_are_pairwise_distinct() {
    let mut g = NameGenerator::new();
    let mut seen: HashSet<String> = HashSet::new();
    for _ in 0..1000 {
        let name = g.generate_class_name();
        assert!(seen.insert(name));
    }
    assert_eq!(seen.len(), 1000);
}

#[test]
fn callsite_hash_is_deterministic() {
    let a = generate_callsite_hash("src/app.rs", 10, 3);
    let b = generate_callsite_hash("src/app.rs", 10, 3);
    assert_eq!(a, b);
}

#[test]
fn callsite_hash_matches_formula() {
    let mut h: u64 = 0xcbf29ce484222325;
    for c in "src/app.rs".chars() {
        h = (h ^ (c as u32 as u64)).wrapping_mul(0x100000001b3);
    }
    h = (h ^ 10u64).wrapping_mul(0x100000001b3);
    h = (h ^ 3u64).wrapping_mul(0x100000001b3);
    assert_eq!(generate_callsite_hash("src/app.rs", 10, 3), h);
}

#[test]
fn callsite_hash_separates_counters() {
    let a = generate_callsite_hash("src/app.rs", 10, 0);
    let b = generate_callsite_hash("src/app.rs", 10, 1);
    assert_ne!(a, b);
}

use site_counter::registry::VisitRegistry;

fn counts(registry: &VisitRegistry) -> Vec<(String, u64)> {
    let mut entries: Vec<(String, u64)> = registry
        .snapshot()
        .into_iter()
        .map(|(url, count)| (url, count.to_u64().unwrap()))
        .collect();
    entries.sort();
    entries
}

#[test]
fn a_new_registry_holds_nothing() {
    let registry = VisitRegistry::new();
    assert!(!registry.contains("https://abc.de/"));
    assert!(registry.snapshot().is_empty());
}

#[test]
fn only_the_first_claim_of_a_url_is_first() {
    let mut registry = VisitRegistry::new();
    let url = "https://abc.de/".to_string();
    let mut firsts = 0;
    for attempt in 0..10 {
        let first = registry.claim(url.clone());
        assert_eq!(first, attempt == 0);
        if first {
            firsts += 1;
        }
    }
    assert_eq!(firsts, 1);
    assert_eq!(counts(&registry), vec![(url, 10)]);
}

#[test]
fn claims_of_different_urls_do_not_disturb_each_other() {
    let mut registry = VisitRegistry::new();
    assert!(registry.claim("a".to_string()));
    assert!(registry.claim("b".to_string()));
    assert!(!registry.claim("a".to_string()));
    assert!(registry.claim("c".to_string()));
    assert!(!registry.claim("b".to_string()));
    assert!(!registry.claim("a".to_string()));
    assert_eq!(
        counts(&registry),
        vec![("a".to_string(), 3), ("b".to_string(), 2), ("c".to_string(), 1)]
    );
}

#[test]
fn contains_tells_claimed_urls_from_others() {
    let mut registry = VisitRegistry::new();
    assert!(!registry.contains("a"));
    registry.claim("a".to_string());
    assert!(registry.contains("a"));
    assert!(!registry.contains("b"));
    assert!(!registry.contains(""));
}

#[test]
fn the_snapshot_holds_each_url_once() {
    let mut registry = VisitRegistry::new();
    for round in 0..3 {
        for name in ["x", "y", "z"] {
            assert_eq!(registry.claim(name.to_string()), round == 0);
        }
    }
    let snapshot = registry.snapshot();
    assert_eq!(snapshot.len(), 3);
    assert_eq!(
        counts(&registry),
        vec![("x".to_string(), 3), ("y".to_string(), 3), ("z".to_string(), 3)]
    );
}

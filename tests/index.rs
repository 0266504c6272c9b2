use broca::index::{Row, VocabIndex};

fn s(x: &str) -> String {
    x.to_string()
}

#[test]
fn newer_upsert_replaces_older() {
    let mut ix = VocabIndex::new();
    assert!(ix.upsert(s("whim"), s("c1"), 10));
    assert!(ix.upsert(s("whim"), s("c2"), 20));
    assert_eq!(ix.lookup("whim"), Some(s("c2")));
    assert_eq!(ix.len(), 1);
}

#[test]
fn stale_upsert_is_suppressed() {
    let mut ix = VocabIndex::new();
    assert!(ix.upsert(s("whim"), s("c2"), 20));
    assert!(!ix.upsert(s("whim"), s("c1"), 10));
    assert_eq!(ix.lookup("whim"), Some(s("c2")));
}

#[test]
fn equal_timestamp_replaces() {
    let mut ix = VocabIndex::new();
    ix.upsert(s("whim"), s("c1"), 10);
    assert!(ix.upsert(s("whim"), s("c2"), 10));
    assert_eq!(ix.lookup("whim"), Some(s("c2")));
}

#[test]
fn keys_are_case_insensitive_lookup_is_exact() {
    let mut ix = VocabIndex::new();
    ix.upsert(s("Run"), s("old"), 5);
    assert!(!ix.upsert(s("RUN"), s("stale"), 4));
    assert!(ix.upsert(s("run"), s("new"), 6));
    assert_eq!(ix.len(), 1);
    assert_eq!(ix.lookup("run"), Some(s("new")));
    assert_eq!(ix.lookup("Run"), None);
}

#[test]
fn list_all_orders_by_recency_ties_in_insertion_order() {
    let mut ix = VocabIndex::new();
    ix.upsert(s("a"), s("x"), 5);
    ix.upsert(s("b"), s("x"), 9);
    ix.upsert(s("c"), s("x"), 5);
    ix.upsert(s("d"), s("x"), 7);
    assert_eq!(ix.list_all(), vec![s("b"), s("d"), s("a"), s("c")]);
}

#[test]
fn search_is_case_insensitive_substring() {
    let mut ix = VocabIndex::new();
    ix.upsert(s("Whim"), s("x"), 1);
    ix.upsert(s("awhile"), s("x"), 3);
    ix.upsert(s("apple"), s("x"), 2);
    assert_eq!(ix.search("WH"), vec![s("awhile"), s("Whim")]);
    assert_eq!(ix.search("zz"), Vec::<String>::new());
    assert_eq!(ix.search(""), vec![s("awhile"), s("apple"), s("Whim")]);
}

#[test]
fn search_pattern_longer_than_every_query() {
    let mut ix = VocabIndex::new();
    ix.upsert(s("ab"), s("x"), 1);
    assert_eq!(ix.search("abc"), Vec::<String>::new());
}

#[test]
fn delete_removes_row_up_to_case() {
    let mut ix = VocabIndex::new();
    ix.upsert(s("whim"), s("x"), 1);
    ix.upsert(s("other"), s("y"), 2);
    assert!(ix.delete("WHIM"));
    assert_eq!(ix.lookup("whim"), None);
    assert!(!ix.delete("whim"));
    assert_eq!(ix.list_all(), vec![s("other")]);
}

#[test]
fn usage_accumulates() {
    let mut ix = VocabIndex::new();
    assert_eq!(ix.load_usage(), (0, 0));
    ix.bump_usage(10, 20);
    ix.bump_usage(5, 7);
    assert_eq!(ix.load_usage(), (15, 27));
}

#[test]
fn usage_overflow_is_detected() {
    let mut ix = VocabIndex::new();
    ix.bump_usage(u64::MAX - 1, 0);
    assert!(ix.can_bump(1, 5));
    assert!(!ix.can_bump(2, 0));
}

#[test]
fn scan_twice_is_idempotent() {
    let mut ix = VocabIndex::new();
    ix.upsert(s("old"), s("kept"), 100);
    let files = vec![
        Row::new(s("a"), s("a1"), 5),
        Row::new(s("b"), s("b1"), 5),
        Row::new(s("a"), s("a2"), 5),
        Row::new(s("old"), s("stale"), 50),
        Row::new(s("c"), s("c1"), 8),
    ];
    let first = ix.scan(&files);
    let after_first: Vec<Option<String>> = ["a", "b", "c", "old"].iter().map(|q| ix.lookup(q)).collect();
    let second = ix.scan(&files);
    let after_second: Vec<Option<String>> = ["a", "b", "c", "old"].iter().map(|q| ix.lookup(q)).collect();
    assert_eq!(first, vec![s("old"), s("c"), s("a"), s("b")]);
    assert_eq!(first, second);
    assert_eq!(after_first, after_second);
    assert_eq!(after_first, vec![Some(s("a2")), Some(s("b1")), Some(s("c1")), Some(s("kept"))]);
}

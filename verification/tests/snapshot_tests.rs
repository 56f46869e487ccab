use search_index::document::Doc;
use search_index::error::PersistenceError;
use search_index::index::Index;
use search_index::score::query_terms;
use search_index::snapshot::DocSnapshot;

fn doc(text: &str, modified: u64) -> Doc {
    let content: Vec<char> = text.chars().collect();
    Doc::build(&content, modified)
}

fn entry(id: &str, terms: &[(&str, usize)], count: usize) -> DocSnapshot {
    DocSnapshot {
        id: id.to_string(),
        terms: terms.iter().map(|(t, n)| (t.to_string(), *n)).collect(),
        count,
        last_modified: 1,
    }
}

#[test]
fn snapshot_lists_every_document() {
    let mut index = Index::new();
    index.upsert("a".to_string(), doc("run run jump", 4));
    index.upsert("b".to_string(), doc("", 5));
    let snap = index.snapshot();
    assert_eq!(snap.len(), 2);
    assert_eq!(snap[0].id, "a");
    assert_eq!(snap[0].terms, vec![("jump".to_string(), 1), ("run".to_string(), 2)]);
    assert_eq!(snap[0].count, 3);
    assert_eq!(snap[0].last_modified, 4);
    assert_eq!(snap[1], DocSnapshot { id: "b".to_string(), terms: vec![], count: 0, last_modified: 5 });
}

#[test]
fn round_trip_keeps_every_score() {
    let mut index = Index::new();
    index.upsert("a".to_string(), doc("run run jump", 4));
    index.upsert("b".to_string(), doc("walk run", 5));
    index.upsert("c".to_string(), doc("", 6));
    index.remove("b");
    index.upsert("d".to_string(), doc("jump 42 !", 7));
    let restored = Index::restore(&index.snapshot()).unwrap();
    assert_eq!(restored.len(), index.len());
    for query in ["run", "jump", "walk", "42 !", "", "run jump walk"] {
        let terms = query_terms(query);
        assert_eq!(restored.weigh(&terms), index.weigh(&terms), "query {:?}", query);
    }
    for term in ["run", "jump", "walk", "42", "!"] {
        assert_eq!(restored.document_frequency(term), index.document_frequency(term));
    }
    assert_eq!(restored.snapshot(), index.snapshot());
}

#[test]
fn snapshot_does_not_depend_on_the_order_of_insertion() {
    let mut one = Index::new();
    one.upsert("a".to_string(), doc("x y", 1));
    one.upsert("b".to_string(), doc("y z", 2));
    let mut two = Index::new();
    two.upsert("b".to_string(), doc("z y", 2));
    two.upsert("c".to_string(), doc("gone", 3));
    two.upsert("a".to_string(), doc("y x", 1));
    two.remove("c");
    assert_eq!(one.snapshot(), two.snapshot());
}

#[test]
fn restore_rebuilds_document_frequencies() {
    let snap = vec![entry("a", &[("run", 2)], 2), entry("b", &[("run", 1), ("jump", 1)], 2)];
    let index = Index::restore(&snap).unwrap();
    assert_eq!(index.len(), 2);
    assert_eq!(index.document_frequency("run"), 2);
    assert_eq!(index.document_frequency("jump"), 1);
    assert_eq!(index.get("a").unwrap().count(), 2);
    assert_eq!(index.get("b").unwrap().frequency("jump"), 1);
    assert_eq!(index.get("b").unwrap().last_modified(), 1);
}

#[test]
fn restore_of_nothing_is_the_empty_index() {
    let index = Index::restore(&Vec::new()).unwrap();
    assert_eq!(index.len(), 0);
}

#[test]
fn restore_reports_a_repeated_term() {
    let snap = vec![entry("a", &[("run", 1), ("jump", 1), ("run", 1)], 3)];
    assert_eq!(Index::restore(&snap).err(), Some(PersistenceError::DuplicateTerm));
}

#[test]
fn restore_reports_a_zero_frequency() {
    let snap = vec![entry("a", &[("run", 1), ("jump", 0)], 1)];
    assert_eq!(Index::restore(&snap).err(), Some(PersistenceError::ZeroFrequency));
}

#[test]
fn restore_reports_a_wrong_count() {
    let snap = vec![entry("a", &[("run", 1), ("jump", 2)], 4)];
    assert_eq!(Index::restore(&snap).err(), Some(PersistenceError::CountMismatch));
    let huge = vec![entry("a", &[("run", usize::MAX), ("jump", 1)], 0)];
    assert_eq!(Index::restore(&huge).err(), Some(PersistenceError::CountMismatch));
}

#[test]
fn restore_reports_a_repeated_document() {
    let snap = vec![entry("a", &[("run", 1)], 1), entry("b", &[], 0), entry("a", &[], 0)];
    assert_eq!(Index::restore(&snap).err(), Some(PersistenceError::DuplicateDocument));
}

#[test]
fn faults_are_reported_in_a_fixed_order() {
    let parts = vec![("x".to_string(), 0), ("x".to_string(), 1)];
    assert_eq!(Doc::from_parts(&parts, 7, 0).err(), Some(PersistenceError::DuplicateTerm));
    let parts = vec![("x".to_string(), 0), ("y".to_string(), 1)];
    assert_eq!(Doc::from_parts(&parts, 7, 0).err(), Some(PersistenceError::ZeroFrequency));
    let snap = vec![entry("a", &[], 0), entry("a", &[], 0), entry("b", &[("t", 1)], 2)];
    assert_eq!(Index::restore(&snap).err(), Some(PersistenceError::CountMismatch));
}

#[test]
fn from_parts_makes_the_record() {
    let parts = vec![("run".to_string(), 2), ("jump".to_string(), 1)];
    let d = Doc::from_parts(&parts, 3, 9).unwrap();
    assert_eq!(d.count(), 3);
    assert_eq!(d.frequency("run"), 2);
    assert_eq!(d.frequency("jump"), 1);
    assert_eq!(d.frequency("walk"), 0);
    assert_eq!(d.last_modified(), 9);
}

use search_index::document::Doc;
use search_index::extract::{add_file_to_index, document_from_html, is_html};
use search_index::index::{Index, Refresh};

fn doc(text: &str, modified: u64) -> Doc {
    let content: Vec<char> = text.chars().collect();
    Doc::build(&content, modified)
}

#[test]
fn build_counts_terms() {
    let d = doc("Running dogs run", 5);
    assert_eq!(d.count(), 3);
    assert_eq!(d.frequency("run"), 2);
    assert_eq!(d.frequency("dog"), 1);
    assert_eq!(d.frequency("cat"), 0);
    assert!(d.contains("dog"));
    assert!(!d.contains("cat"));
    assert_eq!(d.last_modified(), 5);
    assert_eq!(d.term_frequency().len(), 2);
}

#[test]
fn empty_document_has_no_terms() {
    let d = doc("", 1);
    assert_eq!(d.count(), 0);
    assert_eq!(d.term_frequency().len(), 0);
    let mut index = Index::new();
    index.upsert("empty".to_string(), d);
    assert_eq!(index.len(), 1);
    assert_eq!(index.document_frequency("anything"), 0);
}

#[test]
fn term_count_is_sum_of_frequencies() {
    let d = doc("a b a c b a 1 1 !", 0);
    let table = d.term_frequency();
    let mut sum = 0;
    for i in 0..table.len() {
        sum += *table.value_at(i);
    }
    assert_eq!(sum, d.count());
    assert_eq!(d.count(), 9);
}

#[test]
fn new_index_is_empty() {
    let index = Index::new();
    assert_eq!(index.len(), 0);
    assert!(!index.contains("a"));
    assert!(index.get("a").is_none());
    assert_eq!(index.document_frequency("run"), 0);
    let other = Index::default();
    assert_eq!(other.len(), 0);
}

#[test]
fn upsert_counts_each_document_once_per_term() {
    let mut index = Index::new();
    index.upsert("a".to_string(), doc("run run", 1));
    index.upsert("b".to_string(), doc("run jump", 1));
    assert_eq!(index.len(), 2);
    assert_eq!(index.document_frequency("run"), 2);
    assert_eq!(index.document_frequency("jump"), 1);
    assert_eq!(index.document_frequency("walk"), 0);
    assert_eq!(index.get("a").unwrap().frequency("run"), 2);
}

#[test]
fn upsert_on_existing_id_replaces() {
    let mut index = Index::new();
    index.upsert("a".to_string(), doc("run jump", 1));
    index.upsert("b".to_string(), doc("run", 1));
    index.upsert("a".to_string(), doc("walk run", 2));
    assert_eq!(index.len(), 2);
    assert_eq!(index.document_frequency("run"), 2);
    assert_eq!(index.document_frequency("jump"), 0);
    assert_eq!(index.document_frequency("walk"), 1);
    assert_eq!(index.get("a").unwrap().last_modified(), 2);
    assert_eq!(index.get("a").unwrap().frequency("jump"), 0);
}

#[test]
fn remove_lowers_document_frequencies() {
    let mut index = Index::new();
    index.upsert("a".to_string(), doc("run jump", 1));
    index.upsert("b".to_string(), doc("run", 1));
    assert!(index.remove("a"));
    assert_eq!(index.len(), 1);
    assert!(!index.contains("a"));
    assert_eq!(index.document_frequency("run"), 1);
    assert_eq!(index.document_frequency("jump"), 0);
    assert!(!index.remove("a"));
    assert_eq!(index.len(), 1);
    assert!(index.remove("b"));
    assert_eq!(index.len(), 0);
    assert_eq!(index.document_frequency("run"), 0);
}

#[test]
fn document_frequency_matches_a_recount() {
    let mut index = Index::new();
    let texts = [("a", "x y z"), ("b", "x x"), ("c", "z w"), ("d", "")];
    for (id, text) in texts {
        index.upsert(id.to_string(), doc(text, 1));
    }
    index.remove("b");
    index.upsert("c".to_string(), doc("x", 2));
    for term in ["x", "y", "z", "w", "q"] {
        let mut n = 0;
        for i in 0..index.len() {
            if index.doc_at(i).contains(term) {
                n += 1;
            }
        }
        assert_eq!(index.document_frequency(term), n, "term {}", term);
    }
}

#[test]
fn should_reindex_is_the_staleness_test() {
    let mut index = Index::new();
    assert!(index.should_reindex("a", 0));
    index.upsert("a".to_string(), doc("run", 10));
    assert!(!index.should_reindex("a", 9));
    assert!(!index.should_reindex("a", 10));
    assert!(index.should_reindex("a", 11));
    assert!(index.should_reindex("b", 0));
}

#[test]
fn refresh_of_unchanged_document_is_a_no_op() {
    let mut index = Index::new();
    index.upsert("a".to_string(), doc("run jump", 10));
    index.upsert("b".to_string(), doc("run", 10));
    let before = index.snapshot();
    assert_eq!(index.refresh("a".to_string(), doc("run jump", 10)), Refresh::Unchanged);
    assert_eq!(index.snapshot(), before);
    assert_eq!(index.refresh("a".to_string(), doc("other words", 9)), Refresh::Unchanged);
    assert_eq!(index.snapshot(), before);
    assert_eq!(index.document_frequency("run"), 2);
    assert_eq!(index.document_frequency("jump"), 1);
    assert_eq!(index.document_frequency("word"), 0);
}

#[test]
fn refresh_adds_and_replaces() {
    let mut index = Index::new();
    assert_eq!(index.refresh("a".to_string(), doc("run", 1)), Refresh::Added);
    assert_eq!(index.refresh("a".to_string(), doc("jump", 2)), Refresh::Replaced);
    assert_eq!(index.len(), 1);
    assert_eq!(index.document_frequency("run"), 0);
    assert_eq!(index.document_frequency("jump"), 1);
}

#[test]
fn removal_sweep() {
    let mut index = Index::new();
    index.upsert("d1".to_string(), doc("alpha beta", 1));
    index.upsert("d2".to_string(), doc("beta gamma", 1));
    assert_eq!(index.document_frequency("alpha"), 1);
    assert_eq!(index.document_frequency("beta"), 2);
    let present = vec!["d2".to_string()];
    assert_eq!(index.sweep(&present), 1);
    assert!(!index.contains("d1"));
    assert!(index.contains("d2"));
    assert_eq!(index.document_frequency("alpha"), 0);
    assert_eq!(index.document_frequency("beta"), 1);
    assert_eq!(index.document_frequency("gamma"), 1);
}

#[test]
fn sweep_keeps_what_is_present() {
    let mut index = Index::new();
    for id in ["a", "b", "c", "d", "e"] {
        index.upsert(id.to_string(), doc(id, 1));
    }
    let present = vec!["e".to_string(), "b".to_string(), "zz".to_string()];
    assert_eq!(index.sweep(&present), 3);
    assert_eq!(index.len(), 2);
    assert!(index.contains("b") && index.contains("e"));
    assert!(!index.contains("a") && !index.contains("c") && !index.contains("d"));
    assert!(!index.contains("zz"));
    assert_eq!(index.sweep(&present), 0);
    assert_eq!(index.sweep(&Vec::new()), 2);
    assert_eq!(index.len(), 0);
}

#[test]
fn ids_and_records_by_position() {
    let mut index = Index::new();
    index.upsert("a".to_string(), doc("one", 1));
    index.upsert("b".to_string(), doc("two two", 2));
    index.upsert("0".to_string(), doc("", 3));
    let mut seen = Vec::new();
    for i in 0..index.len() {
        seen.push((index.id_at(i).clone(), index.doc_at(i).count()));
    }
    assert_eq!(
        seen,
        vec![("0".to_string(), 0), ("a".to_string(), 1), ("b".to_string(), 2)]
    );
}

#[test]
fn html_is_rendered_before_it_is_tokenized() {
    let d = document_from_html("<html><body><p>Hello <b>world</b></p></body></html>", 3);
    assert_eq!(d.count(), 2);
    assert_eq!(d.frequency("hello"), 1);
    assert_eq!(d.frequency("world"), 1);
    assert_eq!(d.frequency("p"), 0);
    assert_eq!(d.frequency("<"), 0);
    assert_eq!(d.last_modified(), 3);
}

#[test]
fn add_file_to_index_upserts_the_page() {
    let mut index = Index::new();
    add_file_to_index("docs/a.html".to_string(), 7, "<h1>Cats</h1><p>cats &amp; dogs</p>", &mut index);
    assert!(index.contains("docs/a.html"));
    let d = index.get("docs/a.html").unwrap();
    assert_eq!(d.frequency("cat"), 2);
    assert_eq!(d.frequency("dog"), 1);
    assert_eq!(d.frequency("&"), 1);
    assert_eq!(d.last_modified(), 7);
    assert_eq!(index.document_frequency("cat"), 1);
    add_file_to_index("docs/a.html".to_string(), 8, "<p>birds</p>", &mut index);
    assert_eq!(index.len(), 1);
    assert_eq!(index.document_frequency("cat"), 0);
    assert_eq!(index.document_frequency("bird"), 1);
}

#[test]
fn only_html_files_are_indexed() {
    assert!(is_html("html"));
    assert!(!is_html("htm"));
    assert!(!is_html("HTML"));
    assert!(!is_html(""));
    assert!(!is_html("txt"));
}

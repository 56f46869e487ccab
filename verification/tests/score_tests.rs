use search_index::document::Doc;
use search_index::error::QueryError;
use search_index::index::Index;
use search_index::rank::{hit_ranks_first, rank, Hit, DEFAULT_LIMIT};
use search_index::score::{parse_query, query_terms, Weight};

fn doc(text: &str, modified: u64) -> Doc {
    let content: Vec<char> = text.chars().collect();
    Doc::build(&content, modified)
}

fn tf(w: &Weight) -> f32 {
    w.occurrences as f32 / w.term_count as f32
}

fn idf(w: &Weight) -> f32 {
    (w.documents as f32 / w.document_frequency as f32).log2()
}

fn score(ws: &[Weight]) -> f32 {
    ws.iter().map(|w| tf(w) * idf(w)).sum()
}

fn two_documents() -> Index {
    let mut index = Index::new();
    index.upsert("A".to_string(), doc("run run", 1));
    index.upsert("B".to_string(), doc("run jump", 1));
    index
}

fn search(index: &Index, query: &str, limit: usize) -> Vec<(String, f32)> {
    let terms = query_terms(query);
    let hits = search_index::search::search(index, &terms, limit, |ws| score(ws).to_bits() as u64);
    hits.into_iter().map(|h| (h.id, f32::from_bits(h.key as u32))).collect()
}

#[test]
fn scenario_scoring() {
    let index = two_documents();
    assert_eq!(index.get("A").unwrap().count(), 2);
    assert_eq!(index.get("B").unwrap().count(), 2);
    assert_eq!(index.document_frequency("run"), 2);
    assert_eq!(index.document_frequency("jump"), 1);

    let run = search(&index, "run", DEFAULT_LIMIT);
    assert_eq!(run, vec![("A".to_string(), 0.0), ("B".to_string(), 0.0)]);

    let jump = search(&index, "jump", DEFAULT_LIMIT);
    assert_eq!(jump, vec![("B".to_string(), 0.5), ("A".to_string(), 0.0)]);
}

#[test]
fn weights_are_the_exact_ratios() {
    let index = two_documents();
    let a = index.get("A").unwrap();
    let b = index.get("B").unwrap();
    assert_eq!(
        index.weight(a, "run"),
        Weight { occurrences: 2, term_count: 2, documents: 2, document_frequency: 2 }
    );
    assert_eq!(
        index.weight(b, "jump"),
        Weight { occurrences: 1, term_count: 2, documents: 2, document_frequency: 1 }
    );
    assert_eq!(
        index.weight(a, "jump"),
        Weight { occurrences: 0, term_count: 2, documents: 2, document_frequency: 1 }
    );
    assert_eq!(idf(&index.weight(a, "run")), 0.0);
    assert_eq!(idf(&index.weight(a, "jump")), 1.0);
    assert_eq!(tf(&index.weight(b, "jump")), 0.5);
}

#[test]
fn unknown_term_is_smoothed_to_one_document() {
    let index = two_documents();
    let a = index.get("A").unwrap();
    let w = index.weight(a, "walk");
    assert_eq!(w, Weight { occurrences: 0, term_count: 2, documents: 2, document_frequency: 1 });
    assert_eq!(tf(&w) * idf(&w), 0.0);
}

#[test]
fn empty_document_scores_zero() {
    let mut index = two_documents();
    index.upsert("E".to_string(), doc("   ", 1));
    let e = index.get("E").unwrap();
    assert_eq!(e.count(), 0);
    for term in ["run", "jump", "walk", "!"] {
        let w = index.weight(e, term);
        assert_eq!(w.occurrences, 0);
        assert_eq!(w.term_count, 1);
        let s = tf(&w) * idf(&w);
        assert!(!s.is_nan());
        assert_eq!(s, 0.0);
    }
    let all = search(&index, "jump run walk", DEFAULT_LIMIT);
    assert!(all.iter().all(|(_, s)| !s.is_nan()));
    assert!(all.contains(&("E".to_string(), 0.0)));
}

#[test]
fn removed_term_does_not_poison_scores() {
    let mut index = two_documents();
    index.remove("B");
    let a = index.get("A").unwrap();
    let w = index.weight(a, "jump");
    assert_eq!(w, Weight { occurrences: 0, term_count: 2, documents: 1, document_frequency: 1 });
    assert_eq!(tf(&w) * idf(&w), 0.0);
}

#[test]
fn empty_corpus_gives_no_results() {
    let index = Index::new();
    assert!(index.weigh(&query_terms("run")).is_empty());
    assert!(search(&index, "run", DEFAULT_LIMIT).is_empty());
}

#[test]
fn empty_query_gives_all_documents_in_id_order() {
    let mut index = Index::new();
    for id in ["c", "a", "b"] {
        index.upsert(id.to_string(), doc("run", 1));
    }
    let got = search(&index, "  ", DEFAULT_LIMIT);
    assert_eq!(
        got,
        vec![("a".to_string(), 0.0), ("b".to_string(), 0.0), ("c".to_string(), 0.0)]
    );
}

#[test]
fn weigh_follows_the_query_order() {
    let index = two_documents();
    let terms = query_terms("jump Running jump");
    assert_eq!(terms, vec!["jump", "run", "jump"]);
    let all = index.weigh(&terms);
    assert_eq!(all.len(), 2);
    for (i, d) in all.iter().enumerate() {
        assert_eq!(&d.id, index.id_at(i));
        assert_eq!(d.weights, index.weights_at(i, &terms));
        assert_eq!(d.weights.len(), 3);
        assert_eq!(d.weights[0], d.weights[2]);
        assert_eq!(d.weights[1].document_frequency, 2);
    }
}

#[test]
fn rank_orders_by_key_then_id() {
    let hits = || {
        vec![
            Hit { id: "b".to_string(), key: 5 },
            Hit { id: "z".to_string(), key: 9 },
            Hit { id: "a".to_string(), key: 5 },
            Hit { id: "c".to_string(), key: 1 },
            Hit { id: "ab".to_string(), key: 5 },
        ]
    };
    let ids: Vec<String> = rank(hits(), 10).into_iter().map(|h| h.id).collect();
    assert_eq!(ids, vec!["z", "a", "ab", "b", "c"]);
    let top: Vec<String> = rank(hits(), 2).into_iter().map(|h| h.id).collect();
    assert_eq!(top, vec!["z", "a"]);
    assert_eq!(rank(hits(), 5), rank(hits(), 6));
    assert!(rank(hits(), 0).is_empty());
    assert!(rank(Vec::new(), 3).is_empty());
}

#[test]
fn rank_keeps_the_default_ten() {
    let hits: Vec<Hit> = (0..25u64).map(|i| Hit { id: format!("d{:02}", i), key: i % 5 }).collect();
    let top = rank(hits, DEFAULT_LIMIT);
    assert_eq!(top.len(), 10);
    let keys: Vec<u64> = top.iter().map(|h| h.key).collect();
    assert_eq!(keys, vec![4, 4, 4, 4, 4, 3, 3, 3, 3, 3]);
    let ids: Vec<&str> = top.iter().map(|h| h.id.as_str()).collect();
    assert_eq!(ids, vec!["d04", "d09", "d14", "d19", "d24", "d03", "d08", "d13", "d18", "d23"]);
}

#[test]
fn ids_are_ordered_by_code_point() {
    let a = Hit { id: "a".to_string(), key: 1 };
    let b = Hit { id: "b".to_string(), key: 1 };
    let upper = Hit { id: "B".to_string(), key: 1 };
    let long = Hit { id: "aa".to_string(), key: 1 };
    let better = Hit { id: "zzz".to_string(), key: 2 };
    assert!(hit_ranks_first(&a, &b));
    assert!(!hit_ranks_first(&b, &a));
    assert!(hit_ranks_first(&a, &a));
    assert!(hit_ranks_first(&upper, &a));
    assert!(hit_ranks_first(&a, &long));
    assert!(!hit_ranks_first(&long, &a));
    assert!(hit_ranks_first(&better, &a));
    assert!(!hit_ranks_first(&a, &better));
}

#[test]
fn query_is_tokenized_like_a_document() {
    assert_eq!(query_terms("Running dogs, 123 cats!"), vec!["run", "dog", ",", "123", "cat", "!"]);
    assert_eq!(parse_query(b"jumping Cats".to_vec()), Ok(vec!["jump".to_string(), "cat".to_string()]));
    assert_eq!(parse_query(Vec::new()), Ok(Vec::new()));
}

#[test]
fn body_that_is_not_utf8_is_no_query() {
    assert_eq!(parse_query(vec![0xff, 0xfe]), Err(QueryError::NotUtf8));
    assert_eq!(parse_query(vec![b'a', 0xc3]), Err(QueryError::NotUtf8));
    assert_eq!(parse_query(vec![0xc3, 0xa9]), Ok(vec!["é".to_string()]));
}

#[test]
fn search_is_weigh_then_rank() {
    let mut index = two_documents();
    index.upsert("C".to_string(), doc("jump jump jump walk", 1));
    index.upsert("D".to_string(), doc("", 1));
    for query in ["jump", "run walk", "", "nothing here", "walk jump run"] {
        let terms = query_terms(query);
        let by_hand: Vec<Hit> = index
            .weigh(&terms)
            .into_iter()
            .map(|d| Hit { id: d.id, key: score(&d.weights).to_bits() as u64 })
            .collect();
        for limit in [0, 1, 2, 10] {
            let by_hand: Vec<Hit> =
                by_hand.iter().map(|h| Hit { id: h.id.clone(), key: h.key }).collect();
            let got = search_index::search::search(&index, &terms, limit, |ws| {
                score(ws).to_bits() as u64
            });
            assert_eq!(got, rank(by_hand, limit), "query {:?} limit {}", query, limit);
        }
    }
}

#[test]
fn search_ranks_the_better_score_first() {
    let mut index = two_documents();
    index.upsert("C".to_string(), doc("jump jump jump walk", 1));
    let got = search(&index, "jump", 2);
    assert_eq!(got.len(), 2);
    assert_eq!(got[0].0, "C");
    assert_eq!(got[1].0, "B");
    assert!(got[0].1 > got[1].1);
    let n = 3.0f32;
    assert_eq!(got[0].1, 0.75 * (n / 2.0).log2());
    assert_eq!(got[1].1, 0.5 * (n / 2.0).log2());
}

use websearch::counts::TermCount;
use websearch::features::extract_keywords;
use websearch::features::DocFeatures;
use websearch::features::PageRecord;
use websearch::index::construct_idf;
use websearch::search::collect_features;
use websearch::search::search_keywords;
use websearch::search::ImportanceRow;

fn doc(domain: &str, path: &str, total: u64, terms: &[(&str, u64)]) -> DocFeatures {
    DocFeatures {
        domain: domain.to_string(),
        path: path.to_string(),
        total,
        terms: terms
            .iter()
            .map(|(w, c)| TermCount {
                word: w.to_string(),
                count: *c,
            })
            .collect(),
    }
}

fn query(terms: &[&str]) -> Vec<String> {
    terms.iter().map(|t| t.to_string()).collect()
}

/// `search(["a"])` against two documents with weight(a) 0.5 and 0.2
/// returns the heavier document first.
#[test]
fn heavier_document_ranks_first() {
    let features = vec![
        doc("two.example", "/low", 5, &[("a", 1)]),
        doc("one.example", "/high", 2, &[("a", 1)]),
    ];
    let r = search_keywords(&features, &query(&["a"]));
    assert_eq!(
        r,
        vec![
            String::from("one.example/high"),
            String::from("two.example/low")
        ]
    );
}

/// A term in the keyword table but absent from every document's kept
/// top-ten importance rows matches no document: ranking never consults
/// the keyword table.
#[test]
fn keyword_table_is_not_consulted() {
    // Eleven distinct terms; `zebra` occurs once and every other term
    // twice, so `zebra` is the one term dropped from the top ten.
    let mut body = String::from("zebra");
    for i in 0..10u32 {
        for _ in 0..2 {
            body.push_str(&format!(" w{}", i));
        }
    }
    let html = format!("<html><body>{}</body></html>", body);
    let pages = vec![PageRecord {
        domain: String::from("site.example"),
        path: String::from("/only"),
        html: html.clone(),
    }];

    let table = construct_idf(&vec![html]).unwrap();
    assert!(table.rows.iter().any(|r| r.word == "zebra"));

    let features = extract_keywords(&pages);
    assert_eq!(features[0].terms.len(), 10);
    assert!(features[0].terms.iter().all(|t| t.word != "zebra"));

    let r = search_keywords(&features, &query(&["zebra"]));
    assert!(r.is_empty());
}

#[test]
fn matching_is_case_insensitive() {
    let features = vec![doc("s.example", "/", 4, &[("Rust", 2)])];
    assert_eq!(
        search_keywords(&features, &query(&["rust"])),
        vec![String::from("s.example/")]
    );
    assert_eq!(
        search_keywords(&features, &query(&["RUST"])),
        vec![String::from("s.example/")]
    );
}

#[test]
fn several_matched_terms_sum_per_document() {
    let features = vec![
        doc("a.example", "/1", 10, &[("x", 2), ("y", 1)]),
        doc("b.example", "/2", 10, &[("x", 2)]),
    ];
    // a: (2 + 1) / 10, b: 2 / 10.
    let r = search_keywords(&features, &query(&["x", "y"]));
    assert_eq!(
        r,
        vec![String::from("a.example/1"), String::from("b.example/2")]
    );
}

#[test]
fn unmatched_documents_are_left_out() {
    let features = vec![
        doc("a.example", "/1", 3, &[("left", 1)]),
        doc("b.example", "/2", 3, &[("right", 1)]),
    ];
    let r = search_keywords(&features, &query(&["left"]));
    assert_eq!(r, vec![String::from("a.example/1")]);
}

#[test]
fn empty_query_returns_nothing() {
    let features = vec![doc("a.example", "/1", 3, &[("word", 1)])];
    assert!(search_keywords(&features, &Vec::new()).is_empty());
}

#[test]
fn at_most_two_hundred_results() {
    let mut features = Vec::new();
    for i in 0..205u32 {
        features.push(doc(
            &format!("d{}.example", i),
            "/",
            (i + 2) as u64,
            &[("hit", 1)],
        ));
    }
    let r = search_keywords(&features, &query(&["hit"]));
    assert_eq!(r.len(), 200);
    // Heaviest first: the smallest denominator wins.
    assert_eq!(r[0], String::from("d0.example/"));
    assert_eq!(r[1], String::from("d1.example/"));
}

fn row(domain: &str, path: &str, word: &str, count: u64, total: u64) -> ImportanceRow {
    ImportanceRow {
        domain: domain.to_string(),
        path: path.to_string(),
        word: word.to_string(),
        count,
        total,
    }
}

#[test]
fn collect_features_groups_rows_by_document() {
    let rows = vec![
        row("a.example", "/1", "cat", 2, 5),
        row("b.example", "/2", "dog", 1, 4),
        row("a.example", "/1", "fish", 1, 5),
    ];
    let features = collect_features(&rows).unwrap();
    assert_eq!(features.len(), 2);
    assert_eq!(features[0].domain, "a.example");
    assert_eq!(features[0].total, 5);
    assert_eq!(features[0].terms.len(), 2);
    assert_eq!(features[0].terms[0].word, "cat");
    assert_eq!(features[0].terms[1].word, "fish");
    assert_eq!(features[1].domain, "b.example");
    assert_eq!(features[1].terms.len(), 1);
}

#[test]
fn collect_features_refuses_disagreeing_totals() {
    let rows = vec![
        row("a.example", "/1", "cat", 2, 5),
        row("a.example", "/1", "dog", 1, 6),
    ];
    assert!(collect_features(&rows).is_none());
}

#[test]
fn collect_features_refuses_counts_past_total() {
    assert!(collect_features(&vec![row("a.example", "/1", "cat", 6, 5)]).is_none());
    let rows = vec![
        row("a.example", "/1", "cat", 3, 5),
        row("a.example", "/1", "dog", 3, 5),
    ];
    assert!(collect_features(&rows).is_none());
}

#[test]
fn rows_read_back_rank_like_the_extraction() {
    let rows = vec![
        row("low.example", "/", "term", 1, 5),
        row("high.example", "/", "term", 1, 2),
    ];
    let features = collect_features(&rows).unwrap();
    let r = search_keywords(&features, &query(&["term"]));
    assert_eq!(
        r,
        vec![String::from("high.example/"), String::from("low.example/")]
    );
}

#[test]
fn equal_scores_keep_document_order() {
    let features = vec![
        doc("first.example", "/", 4, &[("t", 2)]),
        doc("second.example", "/", 2, &[("t", 1)]),
    ];
    // Both score 1/2; the earlier document stays first.
    let r = search_keywords(&features, &query(&["t"]));
    assert_eq!(
        r,
        vec![
            String::from("first.example/"),
            String::from("second.example/")
        ]
    );
}

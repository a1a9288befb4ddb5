use websearch::index::build_keyword_table;
use websearch::index::construct_idf;

/// A corpus where token `x` occurs 5 times out of 100 total tokens: its
/// keyword score is `log2(100 / 5)` exactly.
#[test]
fn keyword_score_is_log2_of_total_over_count() {
    let mut text = String::new();
    for _ in 0..5 {
        text.push_str("x ");
    }
    for _ in 0..95 {
        text.push_str("y ");
    }
    let table = build_keyword_table(&vec![text]).unwrap();
    assert_eq!(table.total, 100);
    let x_row = table.rows.iter().find(|r| r.word == "x").unwrap();
    assert_eq!(x_row.count, 5);
    // The score the storage layer derives from this row.
    let score = (table.total as f64 / x_row.count as f64).log2();
    assert_eq!(score, (100.0f64 / 5.0f64).log2());
    assert_eq!(score, 20.0f64.log2());
}

#[test]
fn keyword_counts_accumulate_across_pages() {
    let texts = vec![
        String::from("a b a"),
        String::from("b c"),
        String::from("a"),
    ];
    let table = build_keyword_table(&texts).unwrap();
    assert_eq!(table.total, 6);
    let count_of = |w: &str| {
        table
            .rows
            .iter()
            .find(|r| r.word == w)
            .map(|r| r.count)
            .unwrap()
    };
    assert_eq!(count_of("a"), 3);
    assert_eq!(count_of("b"), 2);
    assert_eq!(count_of("c"), 1);
    assert_eq!(table.rows.len(), 3);
}

/// Running the index builder twice in succession yields an identical
/// keyword table.
#[test]
fn index_rebuild_is_identical() {
    let pages = vec![
        String::from("<html><body>one two two</body></html>"),
        String::from("<html><body>two three</body></html>"),
    ];
    let first = construct_idf(&pages).unwrap();
    let second = construct_idf(&pages).unwrap();
    assert_eq!(first.total, second.total);
    assert_eq!(first.rows.len(), second.rows.len());
    for (a, b) in first.rows.iter().zip(second.rows.iter()) {
        assert_eq!(a.word, b.word);
        assert_eq!(a.count, b.count);
    }
}

#[test]
fn empty_corpus_gives_empty_table() {
    let table = build_keyword_table(&Vec::new()).unwrap();
    assert_eq!(table.total, 0);
    assert!(table.rows.is_empty());
}

#[test]
fn construct_idf_strips_markup_before_counting() {
    let pages = vec![String::from(
        "<html><head><title>skip me</title></head><body>kept <script>var skip;</script>kept</body></html>",
    )];
    let table = construct_idf(&pages).unwrap();
    let kept = table.rows.iter().find(|r| r.word == "kept").unwrap();
    assert_eq!(kept.count, 2);
    assert!(table.rows.iter().all(|r| r.word != "skip"));
    assert!(table.rows.iter().all(|r| r.word != "me"));
}

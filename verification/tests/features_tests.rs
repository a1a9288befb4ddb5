use websearch::features::extract_doc_features;
use websearch::features::extract_keywords;
use websearch::features::PageRecord;

fn words(list: &[&str]) -> Vec<String> {
    list.iter().map(|w| w.to_string()).collect()
}

/// A single document with tokens `[a,a,a,b,b,c]`: local weights are
/// a = 0.5, b = 0.333..., c = 0.1667; with a top-ten cutoff all three are
/// kept.
#[test]
fn local_weights_of_small_document() {
    let tokens = words(&["a", "a", "a", "b", "b", "c"]);
    let doc = extract_doc_features(String::from("d"), String::from("/p"), &tokens);
    assert_eq!(doc.total, 6);
    assert_eq!(doc.terms.len(), 3);
    assert_eq!(doc.terms[0].word, "a");
    assert_eq!(doc.terms[0].count, 3);
    assert_eq!(doc.terms[1].word, "b");
    assert_eq!(doc.terms[1].count, 2);
    assert_eq!(doc.terms[2].word, "c");
    assert_eq!(doc.terms[2].count, 1);
    let weight = |i: usize| doc.terms[i].count as f64 / doc.total as f64;
    assert_eq!(weight(0), 0.5);
    assert_eq!(weight(1), 2.0 / 6.0);
    assert_eq!(weight(2), 1.0 / 6.0);
}

/// A document with 15 distinct terms yields exactly 10 rows, the 10 with
/// the highest local weight.
#[test]
fn fifteen_distinct_terms_keep_the_ten_heaviest() {
    let mut tokens: Vec<String> = Vec::new();
    for i in 1..=15u32 {
        for _ in 0..i {
            tokens.push(format!("t{}", i));
        }
    }
    let doc = extract_doc_features(String::from("d"), String::from("/p"), &tokens);
    assert_eq!(doc.total, 120);
    assert_eq!(doc.terms.len(), 10);
    let counts: Vec<u64> = doc.terms.iter().map(|t| t.count).collect();
    assert_eq!(counts, vec![15, 14, 13, 12, 11, 10, 9, 8, 7, 6]);
    assert!(doc.terms.iter().all(|t| t.word != "t5"));
}

#[test]
fn empty_document_keeps_nothing() {
    let doc = extract_doc_features(String::from("d"), String::from("/p"), &Vec::new());
    assert_eq!(doc.total, 0);
    assert!(doc.terms.is_empty());
}

#[test]
fn extract_keywords_runs_per_page() {
    let pages = vec![
        PageRecord {
            domain: String::from("a.example"),
            path: String::from("/x"),
            html: String::from("<body>cat cat dog</body>"),
        },
        PageRecord {
            domain: String::from("b.example"),
            path: String::from("/y"),
            html: String::from("<body>bird</body>"),
        },
    ];
    let features = extract_keywords(&pages);
    assert_eq!(features.len(), 2);
    assert_eq!(features[0].domain, "a.example");
    assert_eq!(features[0].path, "/x");
    assert_eq!(features[0].total, 3);
    assert_eq!(features[0].terms[0].word, "cat");
    assert_eq!(features[0].terms[0].count, 2);
    assert_eq!(features[1].total, 1);
    assert_eq!(features[1].terms[0].word, "bird");
}

use websearch::crawling_engine::acceptable_content_type;
use websearch::text::lower_ascii;
use websearch::tokenize::tokenize;

#[test]
fn tokenize_splits_on_whitespace_and_drops_empties() {
    let tokens = tokenize("  one\ttwo\n\nthree  ");
    assert_eq!(
        tokens,
        vec![
            String::from("one"),
            String::from("two"),
            String::from("three")
        ]
    );
}

#[test]
fn tokenize_empty_text() {
    assert!(tokenize("").is_empty());
    assert!(tokenize(" \t\n ").is_empty());
}

#[test]
fn tokenize_single_token() {
    assert_eq!(tokenize("alone"), vec![String::from("alone")]);
}

#[test]
fn lower_ascii_lowercases_only_ascii_letters() {
    assert_eq!(lower_ascii("MiXeD 42 Case!"), String::from("mixed 42 case!"));
    assert_eq!(lower_ascii(""), String::from(""));
}

#[test]
fn tokenize_splits_on_unicode_whitespace() {
    let tokens = tokenize("one\u{3000}two\u{a0}three");
    assert_eq!(
        tokens,
        vec![
            String::from("one"),
            String::from("two"),
            String::from("three")
        ]
    );
}

#[test]
fn tokenize_keeps_non_ascii_words_whole() {
    let tokens = tokenize("caf\u{e9} na\u{ef}ve");
    assert_eq!(
        tokens,
        vec![String::from("caf\u{e9}"), String::from("na\u{ef}ve")]
    );
}

#[test]
fn content_gate_accepts_text_types() {
    assert!(acceptable_content_type("text/plain"));
    assert!(acceptable_content_type("text/html; charset=utf-8"));
    assert!(acceptable_content_type("text/plain; charset=us-ascii"));
}

#[test]
fn content_gate_rejects_octet_stream() {
    assert!(!acceptable_content_type("application/octet-stream"));
    assert!(!acceptable_content_type("image/png"));
    assert!(!acceptable_content_type("text/"));
    assert!(!acceptable_content_type(""));
}

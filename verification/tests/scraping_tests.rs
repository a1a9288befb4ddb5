use websearch::scraping::extract_links;
use websearch::scraping::get_words;

#[test]
fn get_words_removes_unwanted_tags() {
    let test = "<!DOCTYPE html>
		<html>
		<head>
		<title>Also dont include titles</title>
		<!-- comment test -->
		</head>

		<body><script> Dont include this</script>These are real words though.</body></html>";

    assert_eq!(
        get_words(test).trim(),
        String::from("These are real words though.")
    );
}

#[test]
fn get_words_keeps_body_text() {
    let html = "<html><body><p>hello</p> <p>world</p></body></html>";
    let text = get_words(html);
    assert!(text.contains("hello"));
    assert!(text.contains("world"));
}

#[test]
fn get_words_tolerates_malformed_markup() {
    let text = get_words("<p>unclosed <b>tags<script>gone(");
    assert!(text.contains("unclosed"));
    assert!(text.contains("tags"));
    assert!(!text.contains("gone"));
}

#[test]
fn extract_links_reads_anchor_hrefs_in_order() {
    let html = "<html><body>\
        <a href=\"http://one.example/\">first</a>\
        <a>no href</a>\
        <a href=\"http://two.example/page\">second</a>\
        </body></html>";
    let links = extract_links(html);
    assert_eq!(
        links,
        vec![
            String::from("http://one.example/"),
            String::from("http://two.example/page")
        ]
    );
}

#[test]
fn extract_links_empty_document() {
    let links = extract_links("<html><body>nothing here</body></html>");
    assert!(links.is_empty());
}

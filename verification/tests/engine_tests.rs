use websearch::crawling_engine::CrawlingEngine;
use websearch::urls::parse_url;
use websearch::urls::UrlParts;

fn url(s: &str) -> UrlParts {
    parse_url(s).unwrap()
}

/// Two URLs with the same normalized (host, path) key: at most one of them
/// is ever accepted for fetching within a run.
#[test]
fn same_key_is_fetched_at_most_once() {
    let mut engine = CrawlingEngine::new();
    let u1 = url("http://example.com/page?a=1");
    let u2 = url("http://example.com/page?b=2#frag");
    assert!(engine.try_accept(&u1));
    assert!(!engine.try_accept(&u2));
    assert!(!engine.try_accept(&u1));
}

#[test]
fn distinct_paths_are_distinct_keys() {
    let mut engine = CrawlingEngine::new();
    assert!(engine.try_accept(&url("http://example.com/one")));
    assert!(engine.try_accept(&url("http://example.com/two")));
}

/// A URL whose host is in the blockset is never accepted and never
/// counted as visited.
#[test]
fn blocked_host_is_never_fetched() {
    let mut engine = CrawlingEngine::with_blockset(vec![String::from("blocked.example")]);
    let u = url("http://blocked.example/anything");
    assert!(!engine.try_accept(&u));
    assert!(!engine.try_accept(&u));
    assert_eq!(engine.get_visited_count(), 0);
    assert!(engine.try_accept(&url("http://open.example/fine")));
}

#[test]
fn frontier_hands_out_oldest_first() {
    let mut engine = CrawlingEngine::new();
    engine.add_destination(url("http://a.example/"));
    engine.add_destinations(vec![url("http://b.example/"), url("http://c.example/")]);
    assert_eq!(engine.next_destination().unwrap().full, "http://a.example/");
    assert_eq!(engine.next_destination().unwrap().full, "http://b.example/");
    assert_eq!(engine.next_destination().unwrap().full, "http://c.example/");
    assert!(engine.next_destination().is_none());
}

#[test]
fn select_links_keeps_only_new_fetchable_urls() {
    let mut engine = CrawlingEngine::new();
    assert!(engine.try_accept(&url("http://seen.example/old")));
    let candidates = vec![
        url("http://seen.example/old?q=1"),
        url("ftp://files.example/pub"),
        url("https://new.example/fresh"),
    ];
    let kept = engine.select_links(&candidates);
    assert_eq!(kept.len(), 1);
    assert_eq!(kept[0].full, "https://new.example/fresh");
}

/// A response whose content type is `application/octet-stream` is
/// discarded without being persisted or counted.
#[test]
fn octet_stream_response_is_discarded() {
    let mut engine = CrawlingEngine::new();
    let ct = String::from("application/octet-stream");
    let persist = engine.handle_response(Some(&ct), &Vec::new());
    assert!(!persist);
    assert_eq!(engine.get_visited_count(), 0);
}

#[test]
fn missing_content_type_is_discarded() {
    let mut engine = CrawlingEngine::new();
    assert!(!engine.handle_response(None, &Vec::new()));
    assert_eq!(engine.get_visited_count(), 0);
}

#[test]
fn acceptable_response_is_persisted_counted_and_links_enqueued() {
    let mut engine = CrawlingEngine::new();
    let ct = String::from("text/html; charset=utf-8");
    let candidates = vec![url("http://next.example/"), url("mailto:someone@example.com")];
    let persist = engine.handle_response(Some(&ct), &candidates);
    assert!(persist);
    assert_eq!(engine.get_visited_count(), 1);
    let queued = engine.next_destination().unwrap();
    assert_eq!(queued.full, "http://next.example/");
    assert!(engine.next_destination().is_none());
}

#[test]
fn ip_hosts_key_on_host_and_path() {
    let mut engine = CrawlingEngine::new();
    let by_ip = url("http://127.0.0.1/shared");
    assert!(by_ip.domain.is_none());
    assert!(engine.try_accept(&by_ip));
    // The key is host + path, so the same address and path is refused...
    assert!(!engine.try_accept(&url("http://127.0.0.1/shared?q=1")));
    // ...while a different address with the same path is its own key.
    assert!(engine.try_accept(&url("http://192.168.0.1/shared")));
}

#[test]
fn parse_url_reads_the_parts() {
    let u = url("https://sub.example.com/dir/page?q=1#top");
    assert_eq!(u.scheme, "https");
    assert_eq!(u.host.as_deref(), Some("sub.example.com"));
    assert_eq!(u.domain.as_deref(), Some("sub.example.com"));
    assert_eq!(u.path, "/dir/page");
    assert!(parse_url("not a url").is_none());
    assert!(parse_url("/relative/only").is_none());
}

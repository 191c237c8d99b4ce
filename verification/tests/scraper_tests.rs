use lead_audit::{has_enough_data, normalize_url, parse_html, ScraperCache};

#[test]
fn test_normalize_url() {
    assert_eq!(
        normalize_url("example.com").unwrap(),
        "https://example.com/"
    );
    assert_eq!(
        normalize_url("https://example.com").unwrap(),
        "https://example.com/"
    );
}

#[test]
fn test_normalize_url_rejects_garbage() {
    assert!(normalize_url("https://").is_none());
}

#[test]
fn test_parse_html() {
    let html = r#"
        <p>Email: contact@example.com</p>
        <p>Phone: 01 23 45 67 89</p>
    "#;
    let data = parse_html(html, "https://example.com");
    assert!(!data.emails.is_empty());
    assert!(!data.phones.is_empty());
}

#[test]
fn test_parse_html_keeps_document_and_url() {
    let data = parse_html("<p>x</p>", "https://example.com/");
    assert_eq!(data.url, "https://example.com/");
    assert_eq!(data.html.as_deref(), Some("<p>x</p>"));
    assert!(!has_enough_data(&data));
}

#[test]
fn test_cache_round_trip() {
    let mut cache = ScraperCache::new();
    assert!(cache.get("https://a.example/").is_none());
    let data = parse_html("<p>contact@example.com</p>", "https://a.example/");
    cache.set("https://a.example/".to_string(), data);
    let back = cache.get("https://a.example/").expect("cached entry");
    assert_eq!(back.url, "https://a.example/");
    assert!(back.emails.contains(&"contact@example.com".to_string()));
    assert!(cache.get("https://b.example/").is_none());
}

#[test]
fn test_cache_newer_entry_shadows_older() {
    let mut cache = ScraperCache::new();
    let first = parse_html("<p>old@example.com</p>", "https://a.example/");
    let second = parse_html("<p>new@example.com</p>", "https://a.example/");
    cache.set("https://a.example/".to_string(), first);
    cache.set("https://a.example/".to_string(), second);
    let back = cache.get("https://a.example/").expect("cached entry");
    assert!(back.emails.contains(&"new@example.com".to_string()));
}

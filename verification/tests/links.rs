use kleio::links::extract_links;

#[test]
fn extracts_web_links_without_surrounding_punctuation() {
    let text = "See https://example.com/a, and (http://x.org/b). Not ftp://y or \"https://z.net\";";
    assert_eq!(
        extract_links(text, 10),
        vec!["https://example.com/a".to_string(), "http://x.org/b".to_string(), "https://z.net".to_string()]
    );
}

#[test]
fn link_search_stops_at_the_limit() {
    let text = "https://a.org https://b.org https://c.org";
    assert_eq!(extract_links(text, 2), vec!["https://a.org".to_string(), "https://b.org".to_string()]);
    assert_eq!(extract_links(text, 0), vec!["https://a.org".to_string()]);
    assert!(extract_links("no links here", 3).is_empty());
}

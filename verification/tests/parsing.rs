use feedsub::commands::CommandError;
use feedsub::commands::validate_url;
use feedsub::parse::FetchError;
use feedsub::parse::parse_feed;

const RSS_DOC: &str = "<rss version=\"2.0\"><channel>\
<title>Rust News</title><link>https://rust.example</link><ttl>30</ttl>\
<item><title>First</title><link>https://rust.example/1</link>\
<description>first post</description></item>\
<item><title>Second</title><link>https://rust.example/2</link>\
<description>second post</description></item>\
</channel></rss>";

const ATOM_DOC: &str = "<feed xmlns=\"http://www.w3.org/2005/Atom\">\
<title>Atom News</title><id>urn:a</id><updated>2020-01-01T00:00:00Z</updated>\
<link href=\"https://atom.example\"/>\
<entry><title>Entry One</title><id>urn:a1</id>\
<updated>2020-01-01T00:00:00Z</updated>\
<link href=\"https://atom.example/e1\"/></entry>\
</feed>";

#[test]
fn rss_documents_parse_without_fallback() {
    let f = parse_feed(RSS_DOC.as_bytes()).unwrap();
    assert_eq!(f.title, "Rust News".to_string());
    assert_eq!(f.link, "https://rust.example".to_string());
    assert_eq!(f.ttl_hint, Some("30".to_string()));
    assert_eq!(f.items.len(), 2);
    assert_eq!(f.items[0].title, Some("First".to_string()));
    assert_eq!(f.items[0].link, Some("https://rust.example/1".to_string()));
    assert_eq!(f.items[0].description, Some("first post".to_string()));
    // the RSS path fills the description; the Atom mapping leaves it empty
    assert!(f.items.iter().all(|i| i.description.is_some()));
}

#[test]
fn atom_documents_fall_back_and_normalize() {
    let f = parse_feed(ATOM_DOC.as_bytes()).unwrap();
    assert_eq!(f.title, "Atom News".to_string());
    assert_eq!(f.link, "https://atom.example".to_string());
    assert!(f.items.len() >= 1);
    assert_eq!(f.items[0].title, Some("Entry One".to_string()));
    assert_eq!(f.items[0].link, Some("https://atom.example/e1".to_string()));
    assert_eq!(f.items[0].description, None);
}

#[test]
fn unparsable_bytes_are_a_terminal_error() {
    let r = parse_feed(b"this is no feed at all");
    assert!(matches!(r, Err(FetchError::Parse(_))));
    let r2 = parse_feed(b"<rss version=\"2.0\"><channel><title>broken");
    assert!(matches!(r2, Err(FetchError::Parse(_))));
}

#[test]
fn urls_are_validated_and_normalized() {
    assert_eq!(
        validate_url("https://rust.cc/rss").unwrap(),
        "https://rust.cc/rss".to_string()
    );
    // parsing normalizes: a bare host gains its trailing slash
    assert_eq!(validate_url("https://rust.cc").unwrap(), "https://rust.cc/".to_string());
    assert!(matches!(validate_url("not a url"), Err(CommandError::InvalidUrl)));
}

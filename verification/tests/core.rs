use feedsub::detect::detect_new;
use feedsub::feed::Item;
use feedsub::fingerprint::fingerprint;
use feedsub::interval_seconds;
use feedsub::notify::plan_notifications;
use feedsub::text::parse_u64;
use feedsub::text::strip_newlines;
use feedsub::text::trim;

fn item(
    title: Option<&str>,
    link: Option<&str>,
    description: Option<&str>,
    content: Option<&str>,
) -> Item {
    Item {
        title: title.map(|s| s.to_string()),
        link: link.map(|s| s.to_string()),
        description: description.map(|s| s.to_string()),
        content: content.map(|s| s.to_string()),
    }
}

#[test]
fn fingerprint_is_idempotent() {
    let a = fingerprint("the same text");
    let b = fingerprint("the same text");
    assert_eq!(a, b);
    let i1 = item(Some("one title"), None, Some("  body  "), None);
    let i2 = item(Some("another title"), Some("http://elsewhere"), Some("body"), None);
    // both derive the trimmed description "body"
    assert_eq!(i1.fingerprint(), i2.fingerprint());
    assert_eq!(i1.fingerprint(), Some(fingerprint("body")));
}

#[test]
fn derive_text_priority_and_validity() {
    let with_all = item(None, Some("http://l"), Some("d"), Some("c"));
    assert_eq!(with_all.derive_text(), Some("d".to_string()));
    let no_description = item(None, Some("http://l"), None, Some("c"));
    assert_eq!(no_description.derive_text(), Some("c".to_string()));
    let only_link = item(None, Some("  http://l "), None, None);
    assert_eq!(only_link.derive_text(), Some("http://l".to_string()));
    let blank_description = item(None, Some("http://l"), Some("   "), None);
    assert_eq!(blank_description.derive_text(), Some("http://l".to_string()));
    let nothing = item(Some("title only"), None, None, None);
    assert_eq!(nothing.derive_text(), None);
    assert_eq!(nothing.fingerprint(), None);
}

#[test]
fn text_helpers() {
    assert_eq!(trim("  hello \n"), "hello".to_string());
    assert_eq!(trim("\t\r\n "), "".to_string());
    assert_eq!(strip_newlines("a\nb\nc"), "abc".to_string());
    assert_eq!(strip_newlines("plain"), "plain".to_string());
    assert_eq!(parse_u64("42"), Some(42));
    assert_eq!(parse_u64(""), None);
    assert_eq!(parse_u64("4x"), None);
    assert_eq!(parse_u64("-3"), None);
    assert_eq!(parse_u64("18446744073709551615"), Some(u64::MAX));
    assert_eq!(parse_u64("18446744073709551616"), None);
}

#[test]
fn interval_bounds() {
    assert_eq!(interval_seconds(None), 600);
    assert_eq!(interval_seconds(Some(0)), 600);
    assert_eq!(interval_seconds(Some(10)), 600);
    assert_eq!(interval_seconds(Some(1)), 60);
    assert_eq!(interval_seconds(Some(90)), 5400);
    assert_eq!(interval_seconds(Some(91)), 5400);
    assert_eq!(interval_seconds(Some(u64::MAX)), 5400);
    for hint in [None, Some(0), Some(7), Some(10_000)] {
        let r = interval_seconds(hint);
        assert!(0 < r && r <= 5400);
    }
}

#[test]
fn detector_finds_new_items_and_caps() {
    let items: Vec<Item> = (0..7)
        .map(|n| item(Some("t"), Some(&format!("http://x/{}", n)), Some(&format!("d{}", n)), None))
        .collect();
    let prev: Vec<u64> = Vec::new();
    let (new_items, fps) = detect_new(&items, &prev, 5);
    // more than 5 new items: at most 5 inspected, so at most 5 notified
    assert_eq!(new_items.len(), 5);
    assert_eq!(fps.len(), 5);
    assert_eq!(fps[0], fingerprint("d0"));
    assert_eq!(fps[4], fingerprint("d4"));
}

#[test]
fn detector_skips_seen_fingerprints() {
    let items = vec![
        item(Some("a"), Some("http://x/a"), Some("da"), None),
        item(Some("b"), Some("http://x/b"), Some("db"), None),
    ];
    let prev = vec![fingerprint("da")];
    let (new_items, fps) = detect_new(&items, &prev, 5);
    // the already-seen item is never handed to fanout
    assert_eq!(new_items.len(), 1);
    assert_eq!(new_items[0].description, Some("db".to_string()));
    // but its fingerprint is still remembered
    assert_eq!(fps, vec![fingerprint("da"), fingerprint("db")]);
}

#[test]
fn detector_skips_items_without_text() {
    let items = vec![
        item(Some("no text at all"), None, None, None),
        item(Some("b"), Some("http://x/b"), Some("db"), None),
    ];
    let prev: Vec<u64> = Vec::new();
    let (new_items, fps) = detect_new(&items, &prev, 1);
    // the invalid item does not count toward the cap
    assert_eq!(new_items.len(), 1);
    assert_eq!(fps, vec![fingerprint("db")]);
}

#[test]
fn fanout_order_and_text() {
    let new_items = vec![
        item(Some("first\nitem"), Some(" http://x/1 "), Some("d1"), None),
        item(Some("second"), Some("http://x/2"), Some("d2"), None),
    ];
    let groups = vec![100i64, 200i64];
    let msgs = plan_notifications("My Feed", &new_items, &groups);
    assert_eq!(msgs.len(), 4);
    // items outside, groups inside
    assert_eq!(msgs[0].group, 100);
    assert_eq!(msgs[1].group, 200);
    assert_eq!(msgs[2].group, 100);
    assert_eq!(msgs[3].group, 200);
    // newlines stripped from the item title, link trimmed
    assert_eq!(msgs[0].text, "My Feed\nfirstitem: http://x/1".to_string());
    assert_eq!(msgs[2].text, "My Feed\nsecond: http://x/2".to_string());
}

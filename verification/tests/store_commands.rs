use feedsub::commands::CommandError;
use feedsub::commands::add_subscription;
use feedsub::commands::list_subscriptions;
use feedsub::commands::remove_subscription;
use feedsub::commands::set_interval;
use feedsub::codec::decode;
use feedsub::codec::encode;
use feedsub::feed::Item;
use feedsub::feed::NewsFeed;
use feedsub::fingerprint::fingerprint;
use feedsub::poll::poll_subscription;
use feedsub::poll::apply_poll;
use feedsub::store::Store;
use feedsub::subscription::Subscription;

fn temp_store() -> Store {
    let db = sled::Config::new().temporary(true).open().unwrap();
    Store::new(db.open_tree("sub").unwrap())
}

fn item(title: &str, link: &str, description: &str) -> Item {
    Item {
        title: Some(title.to_string()),
        link: Some(link.to_string()),
        description: Some(description.to_string()),
        content: None,
    }
}

fn feed(title: &str, items: Vec<Item>) -> NewsFeed {
    NewsFeed {
        title: title.to_string(),
        link: "http://example.test".to_string(),
        ttl_hint: None,
        valid: true,
        items,
    }
}

fn sample_subscription(title: &str, interval: i64) -> Subscription {
    Subscription {
        title: title.to_string(),
        groups: vec![100],
        last_update: 1000,
        item_fingerprints: vec![1, 2, 3],
        update_interval: interval,
    }
}

#[test]
fn sled_test() {
    // a second write to the same key replaces the first, durably
    let mut store = temp_store();
    store.put("a", &sample_subscription("one", 600)).unwrap();
    store.put("a", &sample_subscription("twelve", 1200)).unwrap();
    let got = store.get("a").unwrap().unwrap();
    assert_eq!(got.title, "twelve".to_string());
    assert_eq!(got.update_interval, 1200);
}

#[test]
fn corrupt_records_are_reported_not_crashed() {
    let db = sled::Config::new().temporary(true).open().unwrap();
    let tree = db.open_tree("sub").unwrap();
    tree.insert("http://x/bad", &b"not an encoded record"[..]).unwrap();
    let store = Store::new(tree);
    assert!(matches!(
        store.get("http://x/bad"),
        Err(feedsub::store::StoreError::Corrupt)
    ));
    // a sweep listing skips the bad record instead of failing
    assert_eq!(store.entries().unwrap().len(), 0);
    // and the offending key is reported so the sweep can log it
    let skipped = store.skipped_keys().unwrap();
    assert_eq!(skipped.len(), 1);
    assert_eq!(skipped[0], b"http://x/bad".to_vec());
}

#[test]
fn codec_round_trip() {
    let s = Subscription {
        title: "标题 with ünïcode".to_string(),
        groups: vec![-5, 0, 100, i64::MAX, i64::MIN],
        last_update: -12345,
        item_fingerprints: vec![0, u64::MAX, 42],
        update_interval: 5400,
    };
    let bytes = encode(&s);
    let back = decode(&bytes).unwrap();
    assert_eq!(back.title, s.title);
    assert_eq!(back.groups, s.groups);
    assert_eq!(back.last_update, s.last_update);
    assert_eq!(back.item_fingerprints, s.item_fingerprints);
    assert_eq!(back.update_interval, s.update_interval);
}

#[test]
fn codec_rejects_garbage() {
    assert!(decode(&vec![1, 2, 3]).is_none());
    assert!(decode(&vec![0xffu8; 40]).is_none());
    let s = sample_subscription("t", 600);
    let mut bytes = encode(&s);
    bytes.push(0); // trailing byte: no longer a canonical encoding
    assert!(decode(&bytes).is_none());
}

#[test]
fn first_subscription_records_all_items_and_notifies_nobody() {
    let mut store = temp_store();
    let f = feed("F", vec![
        item("A", "http://x/a", "A"),
        item("B", "http://x/b", "B"),
        item("C", "http://x/c", "C"),
    ]);
    let sub = add_subscription(&mut store, "http://x/feed", 100, &f, false, 5000).unwrap();
    assert_eq!(sub.groups, vec![100]);
    assert_eq!(
        sub.item_fingerprints,
        vec![fingerprint("A"), fingerprint("B"), fingerprint("C")]
    );
    assert_eq!(sub.title, "F".to_string());
    assert_eq!(sub.last_update, 5000);
    // no refresh hint: ten-minute default interval
    assert_eq!(sub.update_interval, 600);
    // an immediate poll of the same items notifies nobody
    let (_, msgs) = poll_subscription(&sub, &f, 5001);
    assert_eq!(msgs.len(), 0);
}

#[test]
fn later_poll_notifies_only_the_new_item() {
    let mut store = temp_store();
    let f1 = feed("F", vec![
        item("A", "http://x/a", "A"),
        item("B", "http://x/b", "B"),
        item("C", "http://x/c", "C"),
    ]);
    let sub = add_subscription(&mut store, "http://x/feed", 100, &f1, false, 5000).unwrap();
    let f2 = feed("F", vec![
        item("A", "http://x/a", "A"),
        item("B", "http://x/b", "B"),
        item("C", "http://x/c", "C"),
        item("D", "http://x/d", "D"),
    ]);
    let msgs = apply_poll(&mut store, "http://x/feed", &sub, &f2, 6000).unwrap();
    assert_eq!(msgs.len(), 1);
    assert_eq!(msgs[0].group, 100);
    assert_eq!(msgs[0].text, "F\nD: http://x/d".to_string());
    let updated = store.get("http://x/feed").unwrap().unwrap();
    assert_eq!(
        updated.item_fingerprints,
        vec![fingerprint("A"), fingerprint("B"), fingerprint("C"), fingerprint("D")]
    );
    assert_eq!(updated.last_update, 6000);
}

#[test]
fn adding_twice_fails_and_second_group_joins() {
    let mut store = temp_store();
    let f = feed("F", vec![item("A", "http://x/a", "A")]);
    add_subscription(&mut store, "http://x/feed", 100, &f, false, 5000).unwrap();
    let again = add_subscription(&mut store, "http://x/feed", 100, &f, false, 5001);
    assert!(matches!(again, Err(CommandError::AlreadySubscribed)));
    let joined = add_subscription(&mut store, "http://x/feed", 200, &f, false, 5002).unwrap();
    assert_eq!(joined.groups, vec![100, 200]);
    // the existing record's state is kept for a joining group
    assert_eq!(joined.last_update, 5000);
}

#[test]
fn unlinked_item_fails_validation() {
    let mut store = temp_store();
    let mut bad = feed("F", vec![item("A", "http://x/a", "A")]);
    bad.items.push(Item { title: Some("B".to_string()), link: None, description: Some("B".to_string()), content: None });
    let r = add_subscription(&mut store, "http://x/feed", 100, &bad, false, 5000);
    assert!(matches!(r, Err(CommandError::InvalidFeed)));
    // the feed-validation verdict is skippable, the link demand is not
    let r2 = add_subscription(&mut store, "http://x/feed", 100, &bad, true, 5000);
    assert!(matches!(r2, Err(CommandError::InvalidFeed)));
    let mut unvalidated = feed("F", vec![item("A", "http://x/a", "A")]);
    unvalidated.valid = false;
    let r3 = add_subscription(&mut store, "http://x/feed", 100, &unvalidated, false, 5000);
    assert!(matches!(r3, Err(CommandError::InvalidFeed)));
    assert!(add_subscription(&mut store, "http://x/feed", 100, &unvalidated, true, 5000).is_ok());
}

#[test]
fn removing_last_subscriber_deletes_the_record() {
    let mut store = temp_store();
    let f = feed("F", vec![item("A", "http://x/a", "A")]);
    add_subscription(&mut store, "http://x/feed", 100, &f, false, 5000).unwrap();
    remove_subscription(&mut store, "http://x/feed", 100).unwrap();
    assert!(store.get("http://x/feed").unwrap().is_none());
    // a subsequent listing omits the URL, for the old subscriber and anyone
    assert_eq!(list_subscriptions(&store, 100, 6000).unwrap().len(), 0);
    assert_eq!(list_subscriptions(&store, 200, 6000).unwrap().len(), 0);
}

#[test]
fn removing_one_of_two_subscribers_keeps_the_record() {
    let mut store = temp_store();
    let f = feed("F", vec![item("A", "http://x/a", "A")]);
    add_subscription(&mut store, "http://x/feed", 100, &f, false, 5000).unwrap();
    add_subscription(&mut store, "http://x/feed", 200, &f, false, 5001).unwrap();
    remove_subscription(&mut store, "http://x/feed", 100).unwrap();
    let kept = store.get("http://x/feed").unwrap().unwrap();
    assert_eq!(kept.groups, vec![200]);
    let not_there = remove_subscription(&mut store, "http://x/feed", 100);
    assert!(matches!(not_there, Err(CommandError::NotSubscribed)));
}

#[test]
fn set_interval_requires_subscription_and_bounds() {
    let mut store = temp_store();
    let f = feed("F", vec![item("A", "http://x/a", "A")]);
    add_subscription(&mut store, "http://x/feed", 100, &f, false, 5000).unwrap();
    // a group that is not subscribed cannot retune, and nothing changes
    let r = set_interval(&mut store, "http://x/feed", 200, 1200);
    assert!(matches!(r, Err(CommandError::NotSubscribed)));
    assert_eq!(store.get("http://x/feed").unwrap().unwrap().update_interval, 600);
    // an unknown URL fails the same way
    let r2 = set_interval(&mut store, "http://other/feed", 100, 1200);
    assert!(matches!(r2, Err(CommandError::NotSubscribed)));
    // out-of-bounds intervals are rejected
    assert!(matches!(set_interval(&mut store, "http://x/feed", 100, 0), Err(CommandError::InvalidInterval)));
    assert!(matches!(set_interval(&mut store, "http://x/feed", 100, 5401), Err(CommandError::InvalidInterval)));
    // the subscriber may retune within bounds
    set_interval(&mut store, "http://x/feed", 100, 1200).unwrap();
    assert_eq!(store.get("http://x/feed").unwrap().unwrap().update_interval, 1200);
}

#[test]
fn listing_shows_only_the_groups_subscriptions() {
    let mut store = temp_store();
    let f = feed("Feed One", vec![item("A", "http://x/a", "A")]);
    add_subscription(&mut store, "http://x/one", 100, &f, false, 5000).unwrap();
    add_subscription(&mut store, "http://x/two", 200, &f, false, 5000).unwrap();
    let listing = list_subscriptions(&store, 100, 5300).unwrap();
    assert_eq!(listing.len(), 1);
    assert_eq!(listing[0].url, "http://x/one".to_string());
    assert_eq!(listing[0].title, "Feed One".to_string());
    assert_eq!(listing[0].last_update, 5000);
    assert_eq!(listing[0].update_interval, 600);
    assert_eq!(listing[0].seconds_until_next, 300);
}

#[test]
fn due_check_and_force() {
    let sub = sample_subscription("t", 600);
    assert!(!sub.is_due(1000, false));
    assert!(!sub.is_due(1599, false));
    assert!(sub.is_due(1600, false));
    assert!(sub.is_due(1000, true));
}

#[test]
fn unicode_titles_survive_the_store() {
    let mut store = temp_store();
    let mut s = sample_subscription("Rust 资讯 — émissions", 900);
    s.groups = vec![100, -7];
    store.put("http://x/unicode", &s).unwrap();
    let got = store.get("http://x/unicode").unwrap().unwrap();
    assert_eq!(got.title, "Rust 资讯 — émissions".to_string());
    assert_eq!(got.groups, vec![100, -7]);
}

#[test]
fn fingerprints_are_replaced_not_merged() {
    // a poll of a feed that no longer lists anything forgets every
    // fingerprint, whatever was remembered before
    let sub = sample_subscription("t", 600);
    let empty = feed("t", Vec::new());
    let (updated, msgs) = poll_subscription(&sub, &empty, 2000);
    assert_eq!(updated.item_fingerprints, Vec::<u64>::new());
    assert_eq!(updated.last_update, 2000);
    assert_eq!(msgs.len(), 0);
    // and a poll against a disjoint item set keeps only the new set
    let other = feed("t", vec![item("Z", "http://x/z", "Z")]);
    let (updated2, _) = poll_subscription(&sub, &other, 2001);
    assert_eq!(updated2.item_fingerprints, vec![fingerprint("Z")]);
}

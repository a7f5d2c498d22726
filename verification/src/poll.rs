//! One poll step: against a freshly fetched feed, compute the new items,
//! replace the remembered fingerprints wholesale, stamp the poll time, plan
//! the fanout, and persist the updated record.

use vstd::prelude::*;

use crate::detect::NOTIFY_CAP;
use crate::detect::detect_new;
use crate::detect::spec_inspected_fps;
use crate::detect::spec_new_items;
use crate::codec::spec_encode;
use crate::feed::NewsFeed;
use crate::feed::FeedView;
use crate::notify::Message;
use crate::notify::plan_notifications;
use crate::notify::spec_notifications;
use crate::store::Store;
use crate::store::StoreError;
use crate::store::key_of;
use crate::subscription::Subscription;
use crate::subscription::SubscriptionView;
use crate::subscription::clone_groups;

verus! {

/// The record after a successful poll: the fingerprints are exactly those
/// of the items this poll inspected — replaced, never merged — the poll
/// time is stamped, and title, groups and interval stay.
pub open spec fn spec_polled(s: SubscriptionView, f: FeedView, now: i64) -> SubscriptionView {
    SubscriptionView {
        title: s.title,
        groups: s.groups,
        last_update: now,
        item_fingerprints: spec_inspected_fps(f.items, NOTIFY_CAP as int),
        update_interval: s.update_interval,
    }
}

/// The notifications one poll owes: one message per detected-new item per
/// subscriber group.
pub open spec fn spec_poll_messages(s: SubscriptionView, f: FeedView) -> Seq<
    crate::notify::MessageView,
> {
    spec_notifications(f.title, spec_new_items(f.items, s.item_fingerprints, NOTIFY_CAP as int), s.groups)
}

/// Computes the updated record and the fanout plan for one poll of one
/// subscription. A well-formed record stays well-formed.
pub fn poll_subscription(sub: &Subscription, feed: &NewsFeed, now: i64) -> (r: (
    Subscription,
    Vec<Message>,
))
    ensures
        r.0@ == spec_polled(sub@, feed@, now),
        r.1@.map_values(|m: Message| m@) == spec_poll_messages(sub@, feed@),
        sub@.wf() ==> r.0@.wf(),
{
    let (new_items, fps) = detect_new(&feed.items, &sub.item_fingerprints, NOTIFY_CAP);
    let msgs = plan_notifications(feed.title.as_str(), &new_items, &sub.groups);
    let updated = Subscription {
        title: sub.title.clone(),
        groups: clone_groups(&sub.groups),
        last_update: now,
        item_fingerprints: fps,
        update_interval: sub.update_interval,
    };
    (updated, msgs)
}

/// Runs one subscription's poll step end to end: updates the stored record
/// (atomically, per key) and returns the planned notifications. On an I/O
/// failure the store holds either the old record or the full new one.
pub fn apply_poll(store: &mut Store, url: &str, sub: &Subscription, feed: &NewsFeed, now: i64) -> (r:
    Result<Vec<Message>, StoreError>)
    ensures
        r matches Ok(msgs) ==> final(store)@ == old(store)@.insert(
            key_of(url@),
            spec_encode(spec_polled(sub@, feed@, now)),
        ) && msgs@.map_values(|m: Message| m@) == spec_poll_messages(sub@, feed@),
        r is Err ==> final(store)@ == old(store)@ || final(store)@ == old(store)@.insert(
            key_of(url@),
            spec_encode(spec_polled(sub@, feed@, now)),
        ),
{
    let (updated, msgs) = poll_subscription(sub, feed, now);
    match store.put(url, &updated) {
        Ok(()) => Ok(msgs),
        Err(e) => Err(e),
    }
}

/// Fingerprint replacement is total, not additive: what a poll remembers
/// is exactly the inspected items' fingerprints, whatever the record held
/// before.
pub proof fn lemma_fingerprints_replaced(
    a: SubscriptionView,
    b: SubscriptionView,
    f: FeedView,
    now: i64,
)
    ensures
        spec_polled(a, f, now).item_fingerprints == spec_polled(b, f, now).item_fingerprints,
        spec_polled(a, f, now).item_fingerprints == spec_inspected_fps(f.items, NOTIFY_CAP as int),
{
}

/// Cap enforcement: one poll of a well-formed subscription sends any one
/// group at most `NOTIFY_CAP` messages, however many items are new.
pub proof fn lemma_cap_enforcement(s: SubscriptionView, f: FeedView, g: i64)
    requires
        s.wf(),
    ensures
        crate::notify::spec_count_to(spec_poll_messages(s, f), g) <= NOTIFY_CAP,
{
    crate::detect::lemma_new_items_capped(f.items, s.item_fingerprints, NOTIFY_CAP as int);
    crate::notify::lemma_messages_per_group(
        f.title,
        spec_new_items(f.items, s.item_fingerprints, NOTIFY_CAP as int),
        s.groups,
        g,
    );
}

} // verus!

//! The command interface's store mutations: subscribing a group to a feed,
//! unsubscribing it, listing its subscriptions, and retuning a
//! subscription's polling interval. Each operation states exactly when it
//! succeeds, which error it returns otherwise, and how the store changes.

use vstd::prelude::*;

use crate::codec::bounded;
use crate::codec::lemma_encode_injective;
use crate::codec::spec_encode;
use crate::detect::detect_new;
use crate::detect::spec_inspected_fps;
use crate::feed::NewsFeed;
use crate::feed::FeedView;
use crate::feed::all_items_linked;
use crate::spec_interval_seconds;
use crate::interval_seconds;
use crate::store::Store;
use crate::store::StoreError;
use crate::store::key_of;
use crate::store::listed;
use crate::subscription::Subscription;
use crate::subscription::SubscriptionView;
use crate::subscription::clone_groups;
use crate::text::parse_u64;
use crate::text::spec_parse_u64;

verus! {

/// A command failure, surfaced to the command issuer.
#[derive(Debug)]
pub enum CommandError {
    /// The group already subscribes to this URL.
    AlreadySubscribed,
    /// The group does not subscribe to this URL.
    NotSubscribed,
    /// The feed failed structural validation, or an item lacks a link.
    InvalidFeed,
    /// The requested polling interval is out of bounds.
    InvalidInterval,
    /// The store failed underneath the command.
    Store(StoreError),
    /// The given text is not a well-formed URL.
    InvalidUrl,
}

/// Checks and normalizes a URL given by a command issuer: exactly the
/// well-formed URLs are accepted, in their normalized spelling.
pub fn validate_url(s: &str) -> (r: Result<String, CommandError>)
    ensures
        (match r {
            Ok(u) => crate::parse::spec_url_normalized(s@) == Some(u@),
            Err(e) => e is InvalidUrl && crate::parse::spec_url_normalized(s@)
                == None::<Seq<char>>,
        }),
{
    match crate::parse::url_normalized(s) {
        Some(u) => Ok(u),
        None => Err(CommandError::InvalidUrl),
    }
}

/// A record is stored for this key.
pub open spec fn stored(m: Map<Seq<u8>, Seq<u8>>, k: Seq<u8>, sv: SubscriptionView) -> bool {
    m.contains_key(k) && m[k] == spec_encode(sv) && bounded(sv)
}

/// What a brand-new subscription looks like: the feed's title, the one
/// subscriber, the poll stamped now, the fingerprints of every item with a
/// derivable text, and the interval from the feed's refresh hint.
pub open spec fn spec_added_fresh(f: FeedView, group: i64, now: i64) -> SubscriptionView {
    SubscriptionView {
        title: f.title,
        groups: seq![group],
        last_update: now,
        item_fingerprints: spec_inspected_fps(f.items, f.items.len() as int),
        update_interval: spec_interval_seconds(spec_ttl_minutes(f.ttl_hint)) as i64,
    }
}

/// The refresh hint in minutes, when the feed carries a parsable one.
pub open spec fn spec_ttl_minutes(t: Option<Seq<char>>) -> Option<u64> {
    match t {
        Some(s) => spec_parse_u64(s),
        None => None,
    }
}

/// An existing record with one more subscriber.
pub open spec fn spec_with_group(sv: SubscriptionView, group: i64) -> SubscriptionView {
    SubscriptionView {
        title: sv.title,
        groups: sv.groups.push(group),
        last_update: sv.last_update,
        item_fingerprints: sv.item_fingerprints,
        update_interval: sv.update_interval,
    }
}

/// A record with its polling interval retuned.
pub open spec fn spec_set_interval(sv: SubscriptionView, seconds: i64) -> SubscriptionView {
    SubscriptionView {
        title: sv.title,
        groups: sv.groups,
        last_update: sv.last_update,
        item_fingerprints: sv.item_fingerprints,
        update_interval: seconds,
    }
}

/// The group list without one group.
pub open spec fn spec_without_group(g: Seq<i64>, x: i64) -> Seq<i64>
    decreases g.len(),
{
    if g.len() == 0 {
        Seq::<i64>::empty()
    } else {
        spec_without_group(g.drop_last(), x) + (if g.last() == x {
            Seq::<i64>::empty()
        } else {
            seq![g.last()]
        })
    }
}

/// A record with one subscriber gone.
pub open spec fn spec_less_group(sv: SubscriptionView, group: i64) -> SubscriptionView {
    SubscriptionView {
        title: sv.title,
        groups: spec_without_group(sv.groups, group),
        last_update: sv.last_update,
        item_fingerprints: sv.item_fingerprints,
        update_interval: sv.update_interval,
    }
}

/// When a fetched feed is acceptable for a new subscription: it passed the
/// wire format's structural validation (unless skipped), and every item
/// carries a link.
pub open spec fn add_feed_ok(f: FeedView, skip_validation: bool) -> bool {
    (skip_validation || f.valid) && all_items_linked(f)
}

fn remove_group(v: &Vec<i64>, x: i64) -> (r: Vec<i64>)
    ensures
        r@ == spec_without_group(v@, x),
{
    let mut out: Vec<i64> = Vec::new();
    let mut i: usize = 0;
    while i < v.len()
        invariant
            0 <= i <= v@.len(),
            out@ == spec_without_group(v@.subrange(0, i as int), x),
        decreases v@.len() - i,
    {
        let g = v[i];
        if g != x {
            out.push(g);
        }
        proof {
            let pre = v@.subrange(0, i as int);
            let ext = v@.subrange(0, i + 1);
            assert(ext.drop_last() =~= pre);
            if g != x {
                assert(spec_without_group(ext, x) =~= spec_without_group(pre, x).push(g));
            } else {
                assert(spec_without_group(ext, x) =~= spec_without_group(pre, x));
            }
        }
        i = i + 1;
    }
    proof {
        assert(v@.subrange(0, v@.len() as int) =~= v@);
    }
    out
}

/// One line of a listing: the subscription's URL, its title, when it was
/// last polled, its polling interval, and how many seconds remain until its
/// next poll is due (clamped to the representable range).
pub struct ListEntry {
    pub url: String,
    pub title: String,
    pub last_update: i64,
    pub update_interval: i64,
    pub seconds_until_next: i64,
}

/// Clamps a mathematical integer into `i64`.
pub open spec fn clamp_i64(x: int) -> i64 {
    if x > i64::MAX {
        i64::MAX
    } else if x < i64::MIN {
        i64::MIN
    } else {
        x as i64
    }
}

/// Seconds until a subscription's next poll is due.
pub open spec fn spec_until_next(sv: SubscriptionView, now: i64) -> i64 {
    clamp_i64(sv.last_update + sv.update_interval - now)
}

/// One listing line matches a stored record.
pub open spec fn entry_matches(e: ListEntry, sv: SubscriptionView, now: i64) -> bool {
    &&& e.title@ == sv.title
    &&& e.last_update == sv.last_update
    &&& e.update_interval == sv.update_interval
    &&& e.seconds_until_next == spec_until_next(sv, now)
}

/// Some listing line carries this key.
pub open spec fn url_listed(out: Seq<ListEntry>, k: Seq<u8>) -> bool {
    exists|u: int| 0 <= u < out.len() && key_of(#[trigger] out[u].url@) == k
}

fn until_next(last_update: i64, update_interval: i64, now: i64) -> (r: i64)
    ensures
        r == clamp_i64(last_update + update_interval - now),
{
    let d: i128 = last_update as i128 + update_interval as i128 - now as i128;
    if d > i64::MAX as i128 {
        i64::MAX
    } else if d < i64::MIN as i128 {
        i64::MIN
    } else {
        d as i64
    }
}

/// Lists every subscription of a group: one line per stored record the
/// group subscribes to, each line faithful to its record, no URL twice,
/// and none omitted.
#[verifier::rlimit(60)]
pub fn list_subscriptions(store: &Store, group: i64, now: i64) -> (r: Result<
    Vec<ListEntry>,
    StoreError,
>)
    ensures
        r matches Ok(v) ==> {
            &&& forall|i: int| 0 <= i < v@.len() ==> store@.contains_key(key_of(#[trigger] v@[i].url@))
            &&& forall|i: int, sv: SubscriptionView|
                0 <= i < v@.len() && #[trigger] stored(store@, key_of(v@[i].url@), sv)
                    ==> sv.groups.contains(group) && entry_matches(v@[i], sv, now)
            &&& forall|i: int, j: int|
                0 <= i < j < v@.len() ==> key_of(v@[i].url@) != key_of(v@[j].url@)
            &&& forall|u: Seq<char>, sv: SubscriptionView|
                stored(store@, key_of(u), sv) && sv.groups.contains(group) ==> url_listed(
                    v@,
                    key_of(u),
                )
        },
{
    let ents = match store.entries() {
        Ok(e) => e,
        Err(e) => {
            return Err(e);
        },
    };
    let mut out: Vec<ListEntry> = Vec::new();
    let ghost mut srcs: Seq<int> = Seq::<int>::empty();
    let mut i: usize = 0;
    while i < ents.len()
        invariant
            0 <= i <= ents@.len(),
            forall|t: int|
                0 <= t < ents@.len() ==> store@.contains_key(key_of(#[trigger] ents@[t].0@))
                    && store@[key_of(ents@[t].0@)] == spec_encode(ents@[t].1@) && bounded(
                    ents@[t].1@,
                ),
            forall|t: int, u: int|
                0 <= t < u < ents@.len() ==> key_of(ents@[t].0@) != key_of(ents@[u].0@),
            forall|u: Seq<char>, sv: SubscriptionView|
                stored(store@, key_of(u), sv) && sv.groups.contains(group) ==> listed(
                    ents@,
                    key_of(u),
                ),
            srcs.len() == out@.len(),
            forall|t: int|
                0 <= t < out@.len() ==> 0 <= #[trigger] srcs[t] < i,
            forall|t: int, u: int| 0 <= t < u < out@.len() ==> srcs[t] < srcs[u],
            forall|t: int|
                0 <= t < out@.len() ==> key_of(#[trigger] out@[t].url@) == key_of(
                    ents@[srcs[t]].0@,
                ) && ents@[srcs[t]].1@.groups.contains(group) && entry_matches(
                    out@[t],
                    ents@[srcs[t]].1@,
                    now,
                ),
            forall|t: int|
                0 <= t < i && ents@[t].1@.groups.contains(group) ==> url_listed(
                    out@,
                    key_of(#[trigger] ents@[t].0@),
                ),
        decreases ents@.len() - i,
    {
        let ent = &ents[i];
        if ent.1.has_group(group) {
            let ghost prev = out@;
            let e = ListEntry {
                url: ent.0.clone(),
                title: ent.1.title.clone(),
                last_update: ent.1.last_update,
                update_interval: ent.1.update_interval,
                seconds_until_next: until_next(ent.1.last_update, ent.1.update_interval, now),
            };
            proof {
                assert(entry_matches(e, ents@[i as int].1@, now));
            }
            out.push(e);
            proof {
                srcs = srcs.push(i as int);
                assert(out@ =~= prev.push(out@.last()));
                assert(key_of(out@[out@.len() - 1].url@) == key_of(ents@[i as int].0@));
                assert(url_listed(out@, key_of(ents@[i as int].0@)));
                assert forall|t: int|
                    0 <= t < i && ents@[t].1@.groups.contains(group) implies url_listed(
                    out@,
                    key_of(#[trigger] ents@[t].0@),
                ) by {
                    let u = choose|u: int|
                        0 <= u < prev.len() && key_of(#[trigger] prev[u].url@) == key_of(
                            ents@[t].0@,
                        );
                    assert(key_of(out@[u].url@) == key_of(ents@[t].0@));
                }
            }
        }
        i = i + 1;
    }
    proof {
        assert forall|t: int, sv: SubscriptionView|
            0 <= t < out@.len() && #[trigger] stored(store@, key_of(out@[t].url@), sv) implies
            sv.groups.contains(group) && entry_matches(out@[t], sv, now) by {
            let w = ents@[srcs[t]].1@;
            assert(store@[key_of(out@[t].url@)] == spec_encode(w));
            lemma_encode_injective(sv, w);
        }
        assert forall|t: int, u: int|
            0 <= t < u < out@.len() implies key_of(out@[t].url@) != key_of(out@[u].url@) by {
            assert(key_of(out@[t].url@) == key_of(ents@[srcs[t]].0@));
            assert(key_of(out@[u].url@) == key_of(ents@[srcs[u]].0@));
        }
        assert forall|u: Seq<char>, sv: SubscriptionView|
            stored(store@, key_of(u), sv) && sv.groups.contains(group) implies url_listed(
            out@,
            key_of(u),
        ) by {
            let k = key_of(u);
            assert(listed(ents@, k));
            let t = choose|t: int| 0 <= t < ents@.len() && key_of(#[trigger] ents@[t].0@) == k;
            assert(store@[key_of(ents@[t].0@)] == spec_encode(ents@[t].1@));
            lemma_encode_injective(ents@[t].1@, sv);
            assert(ents@[t].1@.groups.contains(group));
        }
    }
    Ok(out)
}


/// Subscribes a group to a URL. Fails when the group already subscribes,
/// or when the fetched feed is unacceptable; a brand-new URL gets a fresh
/// record derived from the feed, an existing one gains the subscriber. No
/// notification is sent for a first subscription.
pub fn add_subscription(
    store: &mut Store,
    url: &str,
    group: i64,
    feed: &NewsFeed,
    skip_validation: bool,
    now: i64,
) -> (r: Result<Subscription, CommandError>)
    ensures
        r matches Ok(s) ==> final(store)@ == old(store)@.insert(key_of(url@), spec_encode(s@))
            && add_feed_ok(feed@, skip_validation) && s@.groups.contains(group),
        forall|sv: SubscriptionView|
            stored(old(store)@, key_of(url@), sv) && sv.groups.contains(group) ==> (r matches Err(e)
                && (e is AlreadySubscribed || e is Store)) && final(store)@ == old(store)@,
        forall|sv: SubscriptionView|
            stored(old(store)@, key_of(url@), sv) && !sv.groups.contains(group) && add_feed_ok(
                feed@,
                skip_validation,
            ) ==> (r matches Ok(s) && s@ == spec_with_group(sv, group)) || (r matches Err(e)
                && e is Store),
        !old(store)@.contains_key(key_of(url@)) && add_feed_ok(feed@, skip_validation) ==> (
        r matches Ok(s) && s@ == spec_added_fresh(feed@, group, now)) || (r matches Err(e)
            && e is Store),
        !add_feed_ok(feed@, skip_validation) ==> r is Err,
        !add_feed_ok(feed@, skip_validation) && !old(store)@.contains_key(key_of(url@)) ==> (
        r matches Err(e) && (e is InvalidFeed || e is Store)),
        forall|sv: SubscriptionView|
            stored(old(store)@, key_of(url@), sv) && !sv.groups.contains(group) && !add_feed_ok(
                feed@,
                skip_validation,
            ) ==> (r matches Err(e) && (e is InvalidFeed || e is Store)),
        !old(store)@.contains_key(key_of(url@)) ==> (r matches Ok(s) ==> s@.wf()),
        r matches Err(e) && !(e is Store) ==> final(store)@ == old(store)@,
        r matches Err(e) && e is Store ==> final(store)@ == old(store)@ || exists|
            sv: SubscriptionView,
        | final(store)@ == old(store)@.insert(key_of(url@), spec_encode(sv)),
{
    let previous = match store.get(url) {
        Ok(p) => p,
        Err(e) => {
            return Err(CommandError::Store(e));
        },
    };
    proof {
        assert forall|sv: SubscriptionView|
            stored(old(store)@, key_of(url@), sv) implies (previous matches Some(p) && sv
            == p@) by {
            if previous is Some {
                lemma_encode_injective(sv, previous->Some_0@);
            }
        }
    }
    if let Some(sub) = &previous {
        if sub.has_group(group) {
            return Err(CommandError::AlreadySubscribed);
        }
    }
    let valid_ok = skip_validation || feed.valid;
    if !valid_ok || !feed.items_all_linked() {
        return Err(CommandError::InvalidFeed);
    }
    let updated = match &previous {
        Some(sub) => {
            let mut groups = clone_groups(&sub.groups);
            groups.push(group);
            let u = Subscription {
                title: sub.title.clone(),
                groups,
                last_update: sub.last_update,
                item_fingerprints: clone_fps(&sub.item_fingerprints),
                update_interval: sub.update_interval,
            };
            proof {
                assert(u@ =~= spec_with_group(sub@, group));
                assert(u@.groups.last() == group);
                assert(u@.groups.contains(group));
            }
            u
        },
        None => {
            let empty: Vec<u64> = Vec::new();
            let (_, fps) = detect_new(&feed.items, &empty, feed.items.len());
            let hint = match &feed.ttl_hint {
                Some(s) => parse_u64(s.as_str()),
                None => None,
            };
            let mut groups: Vec<i64> = Vec::new();
            groups.push(group);
            let u = Subscription {
                title: feed.title.clone(),
                groups,
                last_update: now,
                item_fingerprints: fps,
                update_interval: interval_seconds(hint) as i64,
            };
            proof {
                assert(u@.groups =~= seq![group]);
                assert(u@ =~= spec_added_fresh(feed@, group, now));
                assert(u@.groups[0] == group);
                assert(u@.groups.contains(group));
                assert(u@.wf());
            }
            u
        },
    };
    match store.put(url, &updated) {
        Ok(()) => Ok(updated),
        Err(e) => Err(CommandError::Store(e)),
    }
}

/// Copies a fingerprint list.
fn clone_fps(v: &Vec<u64>) -> (r: Vec<u64>)
    ensures
        r@ == v@,
{
    let mut out: Vec<u64> = Vec::new();
    let mut i: usize = 0;
    while i < v.len()
        invariant
            0 <= i <= v@.len(),
            out@ == v@.subrange(0, i as int),
        decreases v@.len() - i,
    {
        out.push(v[i]);
        proof {
            assert(v@.subrange(0, i + 1) =~= v@.subrange(0, i as int).push(v@[i as int]));
        }
        i = i + 1;
    }
    proof {
        assert(v@.subrange(0, v@.len() as int) =~= v@);
    }
    out
}

/// Unsubscribes a group from a URL. Fails when the group is not
/// subscribed; removing the last subscriber deletes the whole record.
pub fn remove_subscription(store: &mut Store, url: &str, group: i64) -> (r: Result<
    (),
    CommandError,
>)
    ensures
        forall|sv: SubscriptionView|
            stored(old(store)@, key_of(url@), sv) && !sv.groups.contains(group) ==> (r matches Err(
                e,
            ) && (e is NotSubscribed || e is Store)) && final(store)@ == old(store)@,
        !old(store)@.contains_key(key_of(url@)) ==> (r matches Err(e) && (e is NotSubscribed
            || e is Store)) && final(store)@ == old(store)@,
        forall|sv: SubscriptionView|
            stored(old(store)@, key_of(url@), sv) && sv.groups.contains(group) ==> (r is Ok ==> (
            if spec_without_group(sv.groups, group).len() == 0 {
                final(store)@ == old(store)@.remove(key_of(url@))
            } else {
                final(store)@ == old(store)@.insert(
                    key_of(url@),
                    spec_encode(spec_less_group(sv, group)),
                )
            })),
        forall|sv: SubscriptionView|
            stored(old(store)@, key_of(url@), sv) && sv.groups.contains(group) ==> r is Ok || (
            r matches Err(e) && e is Store),
        r matches Err(e) && !(e is Store) ==> final(store)@ == old(store)@,
        r matches Err(e) && e is Store ==> final(store)@ == old(store)@ || final(store)@ == old(
            store,
        )@.remove(key_of(url@)) || exists|sv: SubscriptionView|
            final(store)@ == old(store)@.insert(key_of(url@), spec_encode(sv)),
{
    let previous = match store.get(url) {
        Ok(Some(p)) => p,
        Ok(None) => {
            return Err(CommandError::NotSubscribed);
        },
        Err(e) => {
            return Err(CommandError::Store(e));
        },
    };
    proof {
        assert forall|sv: SubscriptionView|
            stored(old(store)@, key_of(url@), sv) implies sv == previous@ by {
            lemma_encode_injective(sv, previous@);
        }
    }
    if !previous.has_group(group) {
        return Err(CommandError::NotSubscribed);
    }
    let rest = remove_group(&previous.groups, group);
    if rest.len() == 0 {
        match store.remove(url) {
            Ok(()) => Ok(()),
            Err(e) => Err(CommandError::Store(e)),
        }
    } else {
        let updated = Subscription {
            title: previous.title.clone(),
            groups: rest,
            last_update: previous.last_update,
            item_fingerprints: clone_fps(&previous.item_fingerprints),
            update_interval: previous.update_interval,
        };
        match store.put(url, &updated) {
            Ok(()) => Ok(()),
            Err(e) => Err(CommandError::Store(e)),
        }
    }
}

/// Retunes the polling interval of a subscription. Fails when the group is
/// not subscribed to the URL — the stored interval is then untouched — or
/// when the interval is outside (0, 5400] seconds.
pub fn set_interval(store: &mut Store, url: &str, group: i64, seconds: i64) -> (r: Result<
    (),
    CommandError,
>)
    ensures
        !(0 < seconds <= 5400) ==> (r matches Err(e) && e is InvalidInterval) && final(store)@
            == old(store)@,
        forall|sv: SubscriptionView|
            stored(old(store)@, key_of(url@), sv) && !sv.groups.contains(group) && 0 < seconds
                <= 5400 ==> (r matches Err(e) && (e is NotSubscribed || e is Store))
                && final(store)@ == old(store)@,
        !old(store)@.contains_key(key_of(url@)) && 0 < seconds <= 5400 ==> (r matches Err(e) && (
        e is NotSubscribed || e is Store)) && final(store)@ == old(store)@,
        forall|sv: SubscriptionView|
            stored(old(store)@, key_of(url@), sv) && sv.groups.contains(group) && 0 < seconds
                <= 5400 ==> (r is Ok ==> final(store)@ == old(store)@.insert(
                key_of(url@),
                spec_encode(spec_set_interval(sv, seconds)),
            )),
        forall|sv: SubscriptionView|
            stored(old(store)@, key_of(url@), sv) && sv.groups.contains(group) && 0 < seconds
                <= 5400 ==> r is Ok || (r matches Err(e) && e is Store),
        r matches Err(e) && !(e is Store) ==> final(store)@ == old(store)@,
        r matches Err(e) && e is Store ==> final(store)@ == old(store)@ || exists|
            sv: SubscriptionView,
        | final(store)@ == old(store)@.insert(key_of(url@), spec_encode(sv)),
{
    if seconds <= 0 || seconds > 5400 {
        return Err(CommandError::InvalidInterval);
    }
    let previous = match store.get(url) {
        Ok(Some(p)) => p,
        Ok(None) => {
            return Err(CommandError::NotSubscribed);
        },
        Err(e) => {
            return Err(CommandError::Store(e));
        },
    };
    proof {
        assert forall|sv: SubscriptionView|
            stored(old(store)@, key_of(url@), sv) implies sv == previous@ by {
            lemma_encode_injective(sv, previous@);
        }
    }
    if !previous.has_group(group) {
        return Err(CommandError::NotSubscribed);
    }
    let updated = Subscription {
        title: previous.title.clone(),
        groups: clone_groups(&previous.groups),
        last_update: previous.last_update,
        item_fingerprints: clone_fps(&previous.item_fingerprints),
        update_interval: seconds,
    };
    match store.put(url, &updated) {
        Ok(()) => Ok(()),
        Err(e) => Err(CommandError::Store(e)),
    }
}

} // verus!

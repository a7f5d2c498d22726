//! The change detector: given a feed's items in feed order and the
//! fingerprints remembered from the last poll, it computes which items are
//! new, inspecting at most a fixed number of items per poll so that one
//! bulk-publishing feed cannot flood the subscribers.
//!
//! Only inspected items are fingerprinted, so items beyond the cap are not
//! remembered and are re-evaluated on the next poll — a deliberate trade of
//! fingerprint completeness for a hard bound on per-cycle volume.

use vstd::prelude::*;

use crate::feed::Item;
use crate::feed::ItemView;
use crate::feed::spec_item_fingerprint;

verus! {

/// How many items one poll inspects, and so the most notifications one poll
/// can emit per destination.
pub const NOTIFY_CAP: usize = 5;

/// The fingerprints of the inspected items: walking the items in feed
/// order, items without a derivable text are skipped (they do not count
/// toward the cap), and inspection stops after `cap` fingerprinted items.
/// Independent of any previously remembered fingerprints.
pub open spec fn spec_inspected_fps(items: Seq<ItemView>, cap: int) -> Seq<u64>
    decreases items.len(),
{
    if items.len() == 0 || cap <= 0 {
        Seq::<u64>::empty()
    } else {
        match spec_item_fingerprint(items[0]) {
            Some(fp) => seq![fp] + spec_inspected_fps(items.drop_first(), cap - 1),
            None => spec_inspected_fps(items.drop_first(), cap),
        }
    }
}

/// The new items of a poll: the inspected items whose fingerprint is absent
/// from the previously remembered fingerprints, in feed order.
pub open spec fn spec_new_items(items: Seq<ItemView>, prev: Seq<u64>, cap: int) -> Seq<ItemView>
    decreases items.len(),
{
    if items.len() == 0 || cap <= 0 {
        Seq::<ItemView>::empty()
    } else {
        match spec_item_fingerprint(items[0]) {
            Some(fp) => (if prev.contains(fp) {
                Seq::<ItemView>::empty()
            } else {
                seq![items[0]]
            }) + spec_new_items(items.drop_first(), prev, cap - 1),
            None => spec_new_items(items.drop_first(), prev, cap),
        }
    }
}

/// No duplicate notification: every item that the detector classifies as
/// new has a fingerprint, and that fingerprint is absent from the
/// previously remembered set.
pub proof fn lemma_no_duplicate_notification(
    items: Seq<ItemView>,
    prev: Seq<u64>,
    cap: int,
    j: int,
)
    requires
        0 <= j < spec_new_items(items, prev, cap).len(),
    ensures
        spec_item_fingerprint(spec_new_items(items, prev, cap)[j]) is Some,
        !prev.contains(spec_item_fingerprint(spec_new_items(items, prev, cap)[j]).unwrap()),
    decreases items.len(),
{
    if items.len() == 0 || cap <= 0 {
    } else {
        match spec_item_fingerprint(items[0]) {
            Some(fp) => {
                if prev.contains(fp) {
                    lemma_no_duplicate_notification(items.drop_first(), prev, cap - 1, j);
                } else {
                    if j > 0 {
                        lemma_no_duplicate_notification(items.drop_first(), prev, cap - 1, j - 1);
                    }
                }
            },
            None => {
                lemma_no_duplicate_notification(items.drop_first(), prev, cap, j);
            },
        }
    }
}

/// Cap enforcement: a poll never classifies more than `cap` items as new.
pub proof fn lemma_new_items_capped(items: Seq<ItemView>, prev: Seq<u64>, cap: int)
    ensures
        spec_new_items(items, prev, cap).len() <= if cap >= 0 {
            cap
        } else {
            0
        },
    decreases items.len(),
{
    if items.len() == 0 || cap <= 0 {
    } else {
        match spec_item_fingerprint(items[0]) {
            Some(fp) => {
                lemma_new_items_capped(items.drop_first(), prev, cap - 1);
            },
            None => {
                lemma_new_items_capped(items.drop_first(), prev, cap);
            },
        }
    }
}

/// The detector also never remembers more than `cap` fingerprints.
pub proof fn lemma_inspected_capped(items: Seq<ItemView>, cap: int)
    ensures
        spec_inspected_fps(items, cap).len() <= if cap >= 0 {
            cap
        } else {
            0
        },
    decreases items.len(),
{
    if items.len() == 0 || cap <= 0 {
    } else {
        match spec_item_fingerprint(items[0]) {
            Some(fp) => {
                lemma_inspected_capped(items.drop_first(), cap - 1);
            },
            None => {
                lemma_inspected_capped(items.drop_first(), cap);
            },
        }
    }
}

/// Walks the feed's items in order and returns the new items and the
/// fingerprints of all inspected items.
pub fn detect_new(items: &Vec<Item>, prev: &Vec<u64>, cap: usize) -> (r: (Vec<Item>, Vec<u64>))
    ensures
        r.0@.map_values(|it: Item| it@) == spec_new_items(
            items@.map_values(|it: Item| it@),
            prev@,
            cap as int,
        ),
        r.1@ == spec_inspected_fps(items@.map_values(|it: Item| it@), cap as int),
{
    let ghost views = items@.map_values(|it: Item| it@);
    let mut new_items: Vec<Item> = Vec::new();
    let mut fps: Vec<u64> = Vec::new();
    let mut budget: usize = cap;
    let mut i: usize = 0;
    proof {
        assert(views.subrange(0, views.len() as int) =~= views);
        assert(new_items@.map_values(|it: Item| it@) =~= Seq::<ItemView>::empty());
        assert(Seq::<ItemView>::empty() + spec_new_items(views, prev@, cap as int)
            =~= spec_new_items(views, prev@, cap as int));
        assert(Seq::<u64>::empty() + spec_inspected_fps(views, cap as int) =~= spec_inspected_fps(
            views,
            cap as int,
        ));
    }
    while i < items.len() && budget > 0
        invariant
            0 <= i <= items.len(),
            budget <= cap,
            views == items@.map_values(|it: Item| it@),
            views.len() == items@.len(),
            spec_new_items(views, prev@, cap as int) == new_items@.map_values(|it: Item| it@)
                + spec_new_items(views.subrange(i as int, views.len() as int), prev@, budget as int),
            spec_inspected_fps(views, cap as int) == fps@ + spec_inspected_fps(
                views.subrange(i as int, views.len() as int),
                budget as int,
            ),
        decreases items.len() - i,
    {
        let item = &items[i];
        proof {
            let rest = views.subrange(i as int, views.len() as int);
            assert(rest[0] == views[i as int]);
            assert(rest.drop_first() =~= views.subrange(i + 1, views.len() as int));
        }
        match item.fingerprint() {
            Some(fp) => {
                fps.push(fp);
                if !contains_u64(prev, fp) {
                    new_items.push(item.clone());
                    proof {
                        assert(new_items@.map_values(|it: Item| it@) =~= new_items@.drop_last()
                            .map_values(|it: Item| it@).push(item@));
                    }
                }
                budget = budget - 1;
            },
            None => {},
        }
        i = i + 1;
    }
    proof {
        let rest = views.subrange(i as int, views.len() as int);
        if i == items.len() {
            assert(rest =~= Seq::<ItemView>::empty());
        }
        assert(spec_new_items(rest, prev@, budget as int) =~= Seq::<ItemView>::empty());
        assert(spec_inspected_fps(rest, budget as int) =~= Seq::<u64>::empty());
        assert(new_items@.map_values(|it: Item| it@) + Seq::<ItemView>::empty() =~= new_items@
            .map_values(|it: Item| it@));
        assert(fps@ + Seq::<u64>::empty() =~= fps@);
    }
    (new_items, fps)
}

/// Linear search for a fingerprint.
pub fn contains_u64(v: &Vec<u64>, x: u64) -> (r: bool)
    ensures
        r == v@.contains(x),
{
    let mut i: usize = 0;
    while i < v.len()
        invariant
            0 <= i <= v.len(),
            forall|j: int| 0 <= j < i ==> v@[j] != x,
        decreases v.len() - i,
    {
        if v[i] == x {
            return true;
        }
        i = i + 1;
    }
    false
}

} // verus!

//! The persistent record kept per feed URL: the feed's last known title,
//! the subscriber groups, the fingerprints of the items seen at the last
//! successful poll, and the adaptive polling interval.

use vstd::prelude::*;

verus! {

/// One subscription record, keyed by feed URL in the store.
pub struct Subscription {
    pub title: String,
    pub groups: Vec<i64>,
    pub last_update: i64,
    pub item_fingerprints: Vec<u64>,
    pub update_interval: i64,
}

/// The mathematical view of a [`Subscription`].
#[verifier::ext_equal]
pub ghost struct SubscriptionView {
    pub title: Seq<char>,
    pub groups: Seq<i64>,
    pub last_update: i64,
    pub item_fingerprints: Seq<u64>,
    pub update_interval: i64,
}

impl View for Subscription {
    type V = SubscriptionView;

    open spec fn view(&self) -> SubscriptionView {
        SubscriptionView {
            title: self.title@,
            groups: self.groups@,
            last_update: self.last_update,
            item_fingerprints: self.item_fingerprints@,
            update_interval: self.update_interval,
        }
    }
}

impl SubscriptionView {
    /// Well-formedness: the polling interval is positive and at most 90
    /// minutes, at least one group subscribes, and no group appears twice.
    pub open spec fn wf(self) -> bool {
        &&& 0 < self.update_interval <= 5400
        &&& self.groups.len() >= 1
        &&& forall|i: int, j: int|
            0 <= i < j < self.groups.len() ==> self.groups[i] != self.groups[j]
    }
}

impl Subscription {
    /// True when the given group subscribes here.
    pub fn has_group(&self, group: i64) -> (r: bool)
        ensures
            r == self@.groups.contains(group),
    {
        let mut i: usize = 0;
        while i < self.groups.len()
            invariant
                0 <= i <= self.groups.len(),
                forall|j: int| 0 <= j < i ==> self@.groups[j] != group,
            decreases self.groups.len() - i,
        {
            if self.groups[i] == group {
                return true;
            }
            i = i + 1;
        }
        false
    }

    /// True when this subscription must be polled now: either the sweep is
    /// forced, or at least `update_interval` seconds have passed since the
    /// last successful poll.
    pub fn is_due(&self, now: i64, force: bool) -> (r: bool)
        ensures
            r == spec_due(self@, now, force),
    {
        force || (now as i128) - (self.last_update as i128) >= (self.update_interval as i128)
    }
}

/// When a subscription is due for a poll.
pub open spec fn spec_due(s: SubscriptionView, now: i64, force: bool) -> bool {
    force || now - s.last_update >= s.update_interval
}

/// Copies a group list.
pub fn clone_groups(v: &Vec<i64>) -> (r: Vec<i64>)
    ensures
        r@ == v@,
{
    let mut out: Vec<i64> = Vec::new();
    let mut i: usize = 0;
    while i < v.len()
        invariant
            0 <= i <= v@.len(),
            out@ == v@.subrange(0, i as int),
        decreases v@.len() - i,
    {
        out.push(v[i]);
        proof {
            assert(v@.subrange(0, i + 1) =~= v@.subrange(0, i as int).push(v@[i as int]));
        }
        i = i + 1;
    }
    proof {
        assert(v@.subrange(0, v@.len() as int) =~= v@);
    }
    out
}

} // verus!

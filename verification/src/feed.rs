//! The normalized in-memory view of a fetched feed, independent of the wire
//! format it came in, and the rule that picks the text an item is
//! fingerprinted by.

use vstd::prelude::*;

use crate::fingerprint::spec_fingerprint;
use crate::fingerprint::fingerprint;
use crate::text::trim;
use crate::text::trim_spec;

verus! {

/// One entry of a feed. Every field is optional on the wire.
pub struct Item {
    pub title: Option<String>,
    pub link: Option<String>,
    pub description: Option<String>,
    pub content: Option<String>,
}

/// The mathematical view of an [`Item`].
#[verifier::ext_equal]
pub ghost struct ItemView {
    pub title: Option<Seq<char>>,
    pub link: Option<Seq<char>>,
    pub description: Option<Seq<char>>,
    pub content: Option<Seq<char>>,
}

/// The view of an optional string.
pub open spec fn opt_str_view(o: Option<String>) -> Option<Seq<char>> {
    match o {
        Some(s) => Some(s@),
        None => None,
    }
}

impl View for Item {
    type V = ItemView;

    open spec fn view(&self) -> ItemView {
        ItemView {
            title: opt_str_view(self.title),
            link: opt_str_view(self.link),
            description: opt_str_view(self.description),
            content: opt_str_view(self.content),
        }
    }
}

/// A normalized feed: its title, its site link, an optional refresh hint
/// (minutes, still textual as the wire gave it), whether it passed the
/// structural validation of its wire format, and its entries in feed order.
pub struct NewsFeed {
    pub title: String,
    pub link: String,
    pub ttl_hint: Option<String>,
    pub valid: bool,
    pub items: Vec<Item>,
}

/// The mathematical view of a [`NewsFeed`].
#[verifier::ext_equal]
pub ghost struct FeedView {
    pub title: Seq<char>,
    pub link: Seq<char>,
    pub ttl_hint: Option<Seq<char>>,
    pub valid: bool,
    pub items: Seq<ItemView>,
}

impl View for NewsFeed {
    type V = FeedView;

    open spec fn view(&self) -> FeedView {
        FeedView {
            title: self.title@,
            link: self.link@,
            ttl_hint: opt_str_view(self.ttl_hint),
            valid: self.valid,
            items: self.items@.map_values(|it: Item| it@),
        }
    }
}

/// True of a candidate text that can serve as an item's fingerprint source:
/// present and non-empty once trimmed.
pub open spec fn usable_text(t: Option<Seq<char>>) -> bool {
    t matches Some(s) && trim_spec(s).len() > 0
}

/// The trimmed form of a candidate text.
pub open spec fn trimmed_text(t: Option<Seq<char>>) -> Seq<char>
    recommends
        t is Some,
{
    match t {
        Some(s) => trim_spec(s),
        None => Seq::<char>::empty(),
    }
}

/// The text an item is fingerprinted by: the first of description, content
/// and link that is present and non-empty after trimming; `None` when the
/// item has no such text (the item is then invalid and never notified).
pub open spec fn spec_derive_text(i: ItemView) -> Option<Seq<char>> {
    if usable_text(i.description) {
        Some(trimmed_text(i.description))
    } else if usable_text(i.content) {
        Some(trimmed_text(i.content))
    } else if usable_text(i.link) {
        Some(trimmed_text(i.link))
    } else {
        None
    }
}

/// The fingerprint of an item, when it has a derivable text.
pub open spec fn spec_item_fingerprint(i: ItemView) -> Option<u64> {
    match spec_derive_text(i) {
        Some(t) => Some(spec_fingerprint(t)),
        None => None,
    }
}

/// Copies an optional string.
fn clone_opt_string(o: &Option<String>) -> (r: Option<String>)
    ensures
        opt_str_view(r) == opt_str_view(*o),
{
    match o {
        Some(s) => Some(s.clone()),
        None => None,
    }
}

impl Clone for Item {
    /// The copy has the same view as the original.
    fn clone(&self) -> (res: Self)
        ensures
            res@ == self@,
    {
        Item {
            title: clone_opt_string(&self.title),
            link: clone_opt_string(&self.link),
            description: clone_opt_string(&self.description),
            content: clone_opt_string(&self.content),
        }
    }
}

impl Item {
    /// Picks and trims the text this item is fingerprinted by.
    pub fn derive_text(&self) -> (r: Option<String>)
        ensures
            opt_str_view(r) == spec_derive_text(self@),
    {
        if let Some(d) = &self.description {
            let t = trim(d.as_str());
            if t.as_str().unicode_len() > 0 {
                return Some(t);
            }
        }
        if let Some(c) = &self.content {
            let t = trim(c.as_str());
            if t.as_str().unicode_len() > 0 {
                return Some(t);
            }
        }
        if let Some(l) = &self.link {
            let t = trim(l.as_str());
            if t.as_str().unicode_len() > 0 {
                return Some(t);
            }
        }
        None
    }

    /// Computes this item's fingerprint, when it has a derivable text.
    pub fn fingerprint(&self) -> (r: Option<u64>)
        ensures
            r == spec_item_fingerprint(self@),
    {
        match self.derive_text() {
            Some(t) => Some(fingerprint(t.as_str())),
            None => None,
        }
    }
}

/// True when every item of the feed carries a link, the structural demand
/// made of a feed when a subscription is first added.
pub open spec fn all_items_linked(f: FeedView) -> bool {
    forall|i: int| 0 <= i < f.items.len() ==> f.items[i].link is Some
}

impl NewsFeed {
    /// Checks that every item of the feed carries a link.
    pub fn items_all_linked(&self) -> (r: bool)
        ensures
            r == all_items_linked(self@),
    {
        let mut i: usize = 0;
        while i < self.items.len()
            invariant
                0 <= i <= self.items.len(),
                forall|j: int| 0 <= j < i ==> self@.items[j].link is Some,
            decreases self.items.len() - i,
        {
            if self.items[i].link.is_none() {
                assert(self@.items[i as int].link is None);
                return false;
            }
            i = i + 1;
        }
        true
    }
}

} // verus!

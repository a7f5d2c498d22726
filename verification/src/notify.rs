//! Notification fanout planning: one message per new item per subscriber
//! group, items in detection order outside, groups in subscription order
//! inside. Delivery itself is the transport's business; this module only
//! decides what is sent to whom, and in which order.

use vstd::prelude::*;

use crate::feed::Item;
use crate::feed::ItemView;
use crate::text::strip_newlines;
use crate::text::strip_newlines_spec;
use crate::text::trim;
use crate::text::trim_spec;

verus! {

/// One planned notification: the destination group and the message text.
pub struct Message {
    pub group: i64,
    pub text: String,
}

/// The mathematical view of a [`Message`].
#[verifier::ext_equal]
pub ghost struct MessageView {
    pub group: i64,
    pub text: Seq<char>,
}

impl View for Message {
    type V = MessageView;

    open spec fn view(&self) -> MessageView {
        MessageView { group: self.group, text: self.text@ }
    }
}

/// An absent text reads as empty.
pub open spec fn or_empty(t: Option<Seq<char>>) -> Seq<char> {
    match t {
        Some(s) => s,
        None => Seq::<char>::empty(),
    }
}

/// The text of one notification: the feed title, a newline, the item's
/// title with newlines stripped, a separator, and the item's link trimmed.
pub open spec fn spec_message_text(feed_title: Seq<char>, it: ItemView) -> Seq<char> {
    feed_title + "\n"@ + strip_newlines_spec(or_empty(it.title)) + ": "@ + trim_spec(
        or_empty(it.link),
    )
}

/// The messages one item fans out to: one per group, in group order.
pub open spec fn spec_item_messages(feed_title: Seq<char>, it: ItemView, groups: Seq<i64>) -> Seq<
    MessageView,
> {
    groups.map_values(|g: i64| MessageView { group: g, text: spec_message_text(feed_title, it) })
}

/// The full fanout plan: items outside, groups inside.
pub open spec fn spec_notifications(
    feed_title: Seq<char>,
    items: Seq<ItemView>,
    groups: Seq<i64>,
) -> Seq<MessageView>
    decreases items.len(),
{
    if items.len() == 0 {
        Seq::<MessageView>::empty()
    } else {
        spec_notifications(feed_title, items.drop_last(), groups) + spec_item_messages(
            feed_title,
            items.last(),
            groups,
        )
    }
}

/// Builds the text of one notification.
pub fn message_text(feed_title: &str, it: &Item) -> (r: String)
    ensures
        r@ == spec_message_text(feed_title@, it@),
{
    let mut t = String::new();
    t.append(feed_title);
    t.append("\n");
    match &it.title {
        Some(s) => {
            let stripped = strip_newlines(s.as_str());
            t.append(stripped.as_str());
        },
        None => {
            proof {
                assert(strip_newlines_spec(Seq::<char>::empty()) =~= Seq::<char>::empty());
                assert(t@ + Seq::<char>::empty() =~= t@);
            }
        },
    }
    t.append(": ");
    match &it.link {
        Some(s) => {
            let trimmed = trim(s.as_str());
            t.append(trimmed.as_str());
        },
        None => {
            proof {
                assert(trim_spec(Seq::<char>::empty()) =~= Seq::<char>::empty());
                assert(t@ + Seq::<char>::empty() =~= t@);
            }
        },
    }
    t
}

/// Plans the fanout for the new items of one poll.
pub fn plan_notifications(feed_title: &str, new_items: &Vec<Item>, groups: &Vec<i64>) -> (r: Vec<
    Message,
>)
    ensures
        r@.map_values(|m: Message| m@) == spec_notifications(
            feed_title@,
            new_items@.map_values(|it: Item| it@),
            groups@,
        ),
{
    let ghost views = new_items@.map_values(|it: Item| it@);
    let mut out: Vec<Message> = Vec::new();
    let mut i: usize = 0;
    proof {
        assert(out@.map_values(|m: Message| m@) =~= Seq::<MessageView>::empty());
        assert(views.subrange(0, 0) =~= Seq::<ItemView>::empty());
    }
    while i < new_items.len()
        invariant
            0 <= i <= new_items.len(),
            views == new_items@.map_values(|it: Item| it@),
            views.len() == new_items@.len(),
            out@.map_values(|m: Message| m@) == spec_notifications(
                feed_title@,
                views.subrange(0, i as int),
                groups@,
            ),
        decreases new_items.len() - i,
    {
        let item = &new_items[i];
        let text = message_text(feed_title, item);
        let mut j: usize = 0;
        while j < groups.len()
            invariant
                0 <= j <= groups.len(),
                views == new_items@.map_values(|it: Item| it@),
                views.len() == new_items@.len(),
                0 <= i < new_items.len(),
                item == &new_items[i as int],
                text@ == spec_message_text(feed_title@, item@),
                out@.map_values(|m: Message| m@) == spec_notifications(
                    feed_title@,
                    views.subrange(0, i as int),
                    groups@,
                ) + spec_item_messages(feed_title@, item@, groups@.subrange(0, j as int)),
            decreases groups.len() - j,
        {
            let ghost prev_out = out@;
            let m = Message { group: groups[j], text: text.clone() };
            proof {
                assert(m@ == MessageView { group: groups@[j as int], text: text@ });
            }
            out.push(m);
            proof {
                let done = spec_notifications(feed_title@, views.subrange(0, i as int), groups@);
                let mv = MessageView { group: groups@[j as int], text: text@ };
                assert(out@.map_values(|mm: Message| mm@) =~= prev_out.map_values(
                    |mm: Message| mm@,
                ).push(mv));
                assert(groups@.subrange(0, j + 1).drop_last() =~= groups@.subrange(0, j as int));
                assert(spec_item_messages(feed_title@, item@, groups@.subrange(0, j + 1))
                    =~= spec_item_messages(feed_title@, item@, groups@.subrange(0, j as int)).push(
                    mv,
                ));
                assert(out@.map_values(|mm: Message| mm@) =~= done + spec_item_messages(
                    feed_title@,
                    item@,
                    groups@.subrange(0, j + 1),
                ));
            }
            j = j + 1;
        }
        proof {
            assert(groups@.subrange(0, groups@.len() as int) =~= groups@);
            let pre = views.subrange(0, i as int);
            let ext = views.subrange(0, i + 1);
            assert(ext.drop_last() =~= pre);
            assert(ext.last() == views[i as int]);
            assert(views[i as int] == item@);
        }
        i = i + 1;
    }
    proof {
        assert(views.subrange(0, views.len() as int) =~= views);
    }
    out
}

/// How many of these messages go to the given group.
pub open spec fn spec_count_to(ms: Seq<MessageView>, g: i64) -> int
    decreases ms.len(),
{
    if ms.len() == 0 {
        0
    } else {
        spec_count_to(ms.drop_last(), g) + if ms.last().group == g {
            1int
        } else {
            0int
        }
    }
}

proof fn lemma_count_nonneg(ms: Seq<MessageView>, g: i64)
    ensures
        spec_count_to(ms, g) >= 0,
    decreases ms.len(),
{
    if ms.len() > 0 {
        lemma_count_nonneg(ms.drop_last(), g);
    }
}

proof fn lemma_count_concat(a: Seq<MessageView>, b: Seq<MessageView>, g: i64)
    ensures
        spec_count_to(a + b, g) == spec_count_to(a, g) + spec_count_to(b, g),
    decreases b.len(),
{
    if b.len() == 0 {
        assert(a + b =~= a);
    } else {
        assert((a + b).drop_last() =~= a + b.drop_last());
        assert((a + b).last() == b.last());
        lemma_count_concat(a, b.drop_last(), g);
    }
}

proof fn lemma_count_item_messages(
    feed_title: Seq<char>,
    it: ItemView,
    groups: Seq<i64>,
    g: i64,
)
    requires
        forall|i: int, j: int| 0 <= i < j < groups.len() ==> groups[i] != groups[j],
    ensures
        spec_count_to(spec_item_messages(feed_title, it, groups), g) <= 1,
    decreases groups.len(),
{
    let ms = spec_item_messages(feed_title, it, groups);
    if groups.len() == 0 {
    } else {
        let pre = groups.drop_last();
        assert(ms.drop_last() =~= spec_item_messages(feed_title, it, pre));
        lemma_count_item_messages(feed_title, it, pre, g);
        if groups.last() == g {
            assert(forall|i: int| 0 <= i < pre.len() ==> pre[i] != g);
            lemma_count_in_absent(feed_title, it, pre, g);
        } else {
            lemma_count_nonneg(ms.drop_last(), g);
        }
    }
}

proof fn lemma_count_in_absent(feed_title: Seq<char>, it: ItemView, groups: Seq<i64>, g: i64)
    requires
        forall|i: int| 0 <= i < groups.len() ==> groups[i] != g,
    ensures
        spec_count_to(spec_item_messages(feed_title, it, groups), g) == 0,
    decreases groups.len(),
{
    let ms = spec_item_messages(feed_title, it, groups);
    if groups.len() > 0 {
        assert(ms.drop_last() =~= spec_item_messages(feed_title, it, groups.drop_last()));
        lemma_count_in_absent(feed_title, it, groups.drop_last(), g);
    }
}

/// Volume bound: with no group subscribed twice, one poll's fanout sends
/// each group at most one message per new item — so at most as many
/// messages as there are new items.
pub proof fn lemma_messages_per_group(
    feed_title: Seq<char>,
    items: Seq<ItemView>,
    groups: Seq<i64>,
    g: i64,
)
    requires
        forall|i: int, j: int| 0 <= i < j < groups.len() ==> groups[i] != groups[j],
    ensures
        spec_count_to(spec_notifications(feed_title, items, groups), g) <= items.len(),
    decreases items.len(),
{
    if items.len() == 0 {
    } else {
        lemma_messages_per_group(feed_title, items.drop_last(), groups, g);
        lemma_count_concat(
            spec_notifications(feed_title, items.drop_last(), groups),
            spec_item_messages(feed_title, items.last(), groups),
            g,
        );
        lemma_count_item_messages(feed_title, items.last(), groups, g);
    }
}

} // verus!

//! The render-facing selection of a group's messages: which entries a
//! size-limited group view shows, most recent first. The view layer
//! re-derives this selection each render pass whenever the group's dirty
//! flag says something changed.

use vstd::prelude::*;

use crate::cache::entry_views;
use crate::message_group::MessageGroup;
use crate::model::{Message, MessageView};

verus! {

/// The messages a renderer shows from one store: up to `limit` of the most
/// recent entries, most recent first.
pub open spec fn visible_from(s: Seq<(Seq<char>, MessageView)>, limit: int) -> Seq<MessageView> {
    let shown: int = if s.len() <= limit {
        s.len() as int
    } else {
        limit
    };
    Seq::new(shown as nat, |i: int| s[s.len() - 1 - i].1)
}

/// The display space left for regular messages after the pinned ones.
pub open spec fn remaining_limit(size_limit: int, pinned_count: int) -> int {
    if pinned_count < size_limit {
        size_limit - pinned_count
    } else {
        0
    }
}

/// Up to `limit` of the most recent entries, most recent first.
fn take_recent(entries: &Vec<(String, Message)>, limit: usize) -> (r: Vec<Message>)
    ensures
        r@.map_values(|m: Message| m@) == visible_from(entry_views(entries@), limit as int),
{
    let n = entries.len();
    let shown: usize = if n <= limit {
        n
    } else {
        limit
    };
    let mut out: Vec<Message> = Vec::new();
    let mut i: usize = 0;
    while i < shown
        invariant
            i <= shown,
            shown <= n,
            n == entries@.len(),
            out@.len() == i,
            forall|j: int| 0 <= j < i ==> out@[j]@ == entry_views(entries@)[n - 1 - j].1,
        decreases shown - i,
    {
        let m = entries[n - 1 - i].1.clone();
        out.push(m);
        i += 1;
    }
    proof {
        assert forall|j: int|
            0 <= j < out@.len() implies out@.map_values(|m: Message| m@)[j] == visible_from(
            entry_views(entries@),
            limit as int,
        )[j] by {
            assert(out@[j]@ == entry_views(entries@)[n - 1 - j].1);
        }
        assert(out@.map_values(|m: Message| m@) =~= visible_from(
            entry_views(entries@),
            limit as int,
        ));
    }
    out
}

/// What a size-limited view of a group shows: the most recent pinned
/// messages up to the limit, then regular messages in the space that
/// remains, each list most recent first.
pub fn visible_messages(group: &MessageGroup, size_limit: usize) -> (r: (Vec<Message>, Vec<
    Message,
>))
    requires
        group.wf(),
    ensures
        r.0@.map_values(|m: Message| m@) == visible_from(
            group.pinned_contents(),
            size_limit as int,
        ),
        r.1@.map_values(|m: Message| m@) == visible_from(
            group.msgs_contents(),
            remaining_limit(size_limit as int, group.pinned_contents().len() as int),
        ),
{
    let pinned_entries = group.pinned_msgs().iter_by_recency();
    let pinned = take_recent(pinned_entries, size_limit);
    let pinned_count = pinned_entries.len();
    let remaining: usize = if pinned_count < size_limit {
        size_limit - pinned_count
    } else {
        0
    };
    proof {
        assert(entry_views(pinned_entries@).len() == pinned_entries@.len());
    }
    let regular = take_recent(group.msgs().iter_by_recency(), remaining);
    (pinned, regular)
}

} // verus!

//! A group of messages to show: two eviction caches (regular and pinned),
//! the group's metadata, and a saturating counter.

use vstd::prelude::*;

use crate::cache::{
    put_spec, remove_key, resize_spec, CacheError, EvictionCache,
};
use crate::model::{self, Message, MessageGroupView, MessageView};
use crate::{clamp_capacity, clamped};

verus! {

/// What adding a whole list of messages, first to last, does to the entries.
pub open spec fn put_all(
    s: Seq<(Seq<char>, MessageView)>,
    cap: nat,
    msgs: Seq<MessageView>,
) -> Seq<(Seq<char>, MessageView)>
    decreases msgs.len(),
{
    if msgs.len() == 0 {
        s
    } else {
        put_spec(put_all(s, cap, msgs.drop_last()), cap, msgs.last().id, msgs.last())
    }
}

/// What removing a whole list of ids, first to last, does to the entries.
pub open spec fn remove_all(
    s: Seq<(Seq<char>, MessageView)>,
    ids: Seq<Seq<char>>,
) -> Seq<(Seq<char>, MessageView)>
    decreases ids.len(),
{
    if ids.len() == 0 {
        s
    } else {
        remove_key(remove_all(s, ids.drop_last()), ids.last())
    }
}

/// The whole observable state of a group, as one mathematical value.
#[verifier::ext_equal]
pub struct GroupState {
    pub meta: MessageGroupView,
    pub counter: u64,
    pub msgs: Seq<(Seq<char>, MessageView)>,
    pub pinned: Seq<(Seq<char>, MessageView)>,
    pub msgs_cap: nat,
    pub pinned_cap: nat,
}

/// A group of messages to show, with independent pinned and regular stores.
pub struct MessageGroup {
    meta: model::MessageGroup,
    counter: u64,
    msgs: EvictionCache,
    pinned_msgs: EvictionCache,
}

impl MessageGroup {
    /// The group's metadata.
    pub closed spec fn meta_spec(&self) -> MessageGroupView {
        self.meta@
    }

    /// The group's counter.
    pub closed spec fn counter_spec(&self) -> u64 {
        self.counter
    }

    /// The regular messages, least-recently used first.
    pub closed spec fn msgs_contents(&self) -> Seq<(Seq<char>, MessageView)> {
        self.msgs.contents()
    }

    /// The pinned messages, least-recently used first.
    pub closed spec fn pinned_contents(&self) -> Seq<(Seq<char>, MessageView)> {
        self.pinned_msgs.contents()
    }

    /// The clamped capacity of the regular store.
    pub closed spec fn msgs_cap(&self) -> nat {
        self.msgs.cap()
    }

    /// The clamped capacity of the pinned store.
    pub closed spec fn pinned_cap(&self) -> nat {
        self.pinned_msgs.cap()
    }

    /// The whole observable state of the group.
    pub open spec fn state(&self) -> GroupState {
        GroupState {
            meta: self.meta_spec(),
            counter: self.counter_spec(),
            msgs: self.msgs_contents(),
            pinned: self.pinned_contents(),
            msgs_cap: self.msgs_cap(),
            pinned_cap: self.pinned_cap(),
        }
    }

    /// Invariant: both stores are well formed and their capacities are the
    /// requested ones, clamped to at least one and at most the hard maximum.
    pub closed spec fn wf(&self) -> bool {
        &&& self.msgs.wf()
        &&& self.pinned_msgs.wf()
        &&& 1 <= self.meta@.capacity
        &&& 1 <= self.meta@.pinned_capacity
        &&& self.msgs.cap() == clamped(self.meta@.capacity)
        &&& self.pinned_msgs.cap() == clamped(self.meta@.pinned_capacity)
    }

    /// What well-formedness gives every caller: both stores hold at most
    /// their capacity, capacities are at least one, and no two entries of a
    /// store share a key.
    pub proof fn lemma_wf_bounds(&self)
        requires
            self.wf(),
        ensures
            1 <= self.msgs_cap(),
            self.msgs_contents().len() <= self.msgs_cap(),
            crate::cache::distinct_keys(self.msgs_contents()),
            1 <= self.pinned_cap(),
            self.pinned_contents().len() <= self.pinned_cap(),
            crate::cache::distinct_keys(self.pinned_contents()),
    {
        self.msgs.lemma_wf_bounds();
        self.pinned_msgs.lemma_wf_bounds();
    }

    /// Create a new message group from its metadata, with empty stores and a
    /// zero counter. A capacity of zero in either field is an error.
    pub fn new(meta: model::MessageGroup) -> (r: Result<MessageGroup, CacheError>)
        ensures
            meta@.capacity == 0 || meta@.pinned_capacity == 0 ==> r == Result::<
                MessageGroup,
                CacheError,
            >::Err(CacheError::ZeroCapacity),
            meta@.capacity >= 1 && meta@.pinned_capacity >= 1 ==> (r matches Ok(g) && {
                &&& g.wf()
                &&& g.meta_spec() == meta@
                &&& g.counter_spec() == 0
                &&& g.msgs_contents() == Seq::<(Seq<char>, MessageView)>::empty()
                &&& g.pinned_contents() == Seq::<(Seq<char>, MessageView)>::empty()
                &&& g.msgs_cap() == clamped(meta@.capacity)
                &&& g.pinned_cap() == clamped(meta@.pinned_capacity)
            }),
    {
        let cap = clamp_capacity(meta.capacity as usize);
        let pinned_cap = clamp_capacity(meta.pinned_capacity as usize);
        let msgs = match EvictionCache::new(cap) {
            Ok(c) => c,
            Err(e) => {
                return Err(e);
            },
        };
        let pinned_msgs = match EvictionCache::new(pinned_cap) {
            Ok(c) => c,
            Err(e) => {
                return Err(e);
            },
        };
        Ok(MessageGroup { meta, counter: 0, msgs, pinned_msgs })
    }

    /// The group's metadata.
    pub fn meta(&self) -> (r: &model::MessageGroup)
        ensures
            r@ == self.meta_spec(),
    {
        &self.meta
    }

    /// Replace the metadata. Capacity changes resize the stores, evicting
    /// least-recently-used messages where a store shrank. A zero capacity in
    /// either field is rejected and the group is left entirely unchanged.
    pub fn set_meta(&mut self, meta: model::MessageGroup) -> (r: Result<(), CacheError>)
        requires
            old(self).wf(),
        ensures
            final(self).wf(),
            meta@.capacity == 0 || meta@.pinned_capacity == 0 ==> r == Result::<
                (),
                CacheError,
            >::Err(CacheError::ZeroCapacity) && *final(self) == *old(self),
            meta@.capacity >= 1 && meta@.pinned_capacity >= 1 ==> r == Result::<
                (),
                CacheError,
            >::Ok(()) && {
                &&& final(self).meta_spec() == meta@
                &&& final(self).counter_spec() == old(self).counter_spec()
                &&& final(self).msgs_cap() == clamped(meta@.capacity)
                &&& final(self).pinned_cap() == clamped(meta@.pinned_capacity)
                &&& final(self).msgs_contents() == resize_spec(
                    old(self).msgs_contents(),
                    clamped(meta@.capacity),
                )
                &&& final(self).pinned_contents() == resize_spec(
                    old(self).pinned_contents(),
                    clamped(meta@.pinned_capacity),
                )
            },
    {
        if meta.capacity == 0 || meta.pinned_capacity == 0 {
            return Err(CacheError::ZeroCapacity);
        }
        let cap = clamp_capacity(meta.capacity as usize);
        let pinned_cap = clamp_capacity(meta.pinned_capacity as usize);
        let _ = self.msgs.resize(cap);
        let _ = self.pinned_msgs.resize(pinned_cap);
        self.meta = meta;
        Ok(())
    }

    /// Set the counter to an absolute value.
    pub fn set_counter(&mut self, counter: u64)
        requires
            old(self).wf(),
        ensures
            final(self).wf(),
            final(self).counter_spec() == counter,
            final(self).meta_spec() == old(self).meta_spec(),
            final(self).msgs_contents() == old(self).msgs_contents(),
            final(self).pinned_contents() == old(self).pinned_contents(),
            final(self).msgs_cap() == old(self).msgs_cap(),
            final(self).pinned_cap() == old(self).pinned_cap(),
    {
        self.counter = counter;
    }

    /// Add `counter` to the group's counter, saturating at zero and at
    /// `u64::MAX` for every delta, including `i64::MIN`.
    pub fn inc_counter(&mut self, counter: i64)
        requires
            old(self).wf(),
        ensures
            final(self).wf(),
            final(self).counter_spec() == if counter >= 0 {
                if old(self).counter_spec() + counter > u64::MAX {
                    u64::MAX as int
                } else {
                    old(self).counter_spec() + counter
                }
            } else {
                if old(self).counter_spec() + counter < 0 {
                    0int
                } else {
                    old(self).counter_spec() + counter
                }
            },
            final(self).meta_spec() == old(self).meta_spec(),
            final(self).msgs_contents() == old(self).msgs_contents(),
            final(self).pinned_contents() == old(self).pinned_contents(),
            final(self).msgs_cap() == old(self).msgs_cap(),
            final(self).pinned_cap() == old(self).pinned_cap(),
    {
        if counter >= 0 {
            self.counter = self.counter.saturating_add(counter as u64);
        } else {
            let magnitude: u64 = if counter == i64::MIN {
                9223372036854775808u64
            } else {
                (-counter) as u64
            };
            self.counter = self.counter.saturating_sub(magnitude);
        }
    }

    /// The group's counter.
    pub fn counter(&self) -> (r: u64)
        ensures
            r == self.counter_spec(),
    {
        self.counter
    }

    /// The group's id.
    pub fn id(&self) -> (r: &str)
        ensures
            r@ == self.meta_spec().id,
    {
        self.meta.id.as_str()
    }

    /// The clamped capacity of the regular store.
    pub fn cap(&self) -> (r: usize)
        ensures
            r == self.msgs_cap(),
    {
        self.msgs.capacity()
    }

    /// The clamped capacity of the pinned store.
    pub fn cap_pinned(&self) -> (r: usize)
        ensures
            r == self.pinned_cap(),
    {
        self.pinned_msgs.capacity()
    }

    /// The regular store, for rendering.
    pub fn msgs(&self) -> (r: &EvictionCache)
        requires
            self.wf(),
        ensures
            r.wf(),
            r.contents() == self.msgs_contents(),
            r.cap() == self.msgs_cap(),
    {
        &self.msgs
    }

    /// The pinned store, for rendering.
    pub fn pinned_msgs(&self) -> (r: &EvictionCache)
        requires
            self.wf(),
        ensures
            r.wf(),
            r.contents() == self.pinned_contents(),
            r.cap() == self.pinned_cap(),
    {
        &self.pinned_msgs
    }

    /// Insert or replace one regular message, keyed by its id.
    pub fn add_message(&mut self, notification: Message)
        requires
            old(self).wf(),
        ensures
            final(self).wf(),
            final(self).msgs_contents() == put_spec(
                old(self).msgs_contents(),
                old(self).msgs_cap(),
                notification@.id,
                notification@,
            ),
            final(self).pinned_contents() == old(self).pinned_contents(),
            final(self).meta_spec() == old(self).meta_spec(),
            final(self).counter_spec() == old(self).counter_spec(),
            final(self).msgs_cap() == old(self).msgs_cap(),
            final(self).pinned_cap() == old(self).pinned_cap(),
    {
        let key = notification.id.clone();
        let _ = self.msgs.put(key, notification);
    }

    /// Insert or replace a whole list of regular messages, in list order, so
    /// that a later entry wins over an earlier one sharing its id and ends
    /// up more recently used.
    pub fn add_messages(&mut self, messages: &Vec<Message>)
        requires
            old(self).wf(),
        ensures
            final(self).wf(),
            final(self).msgs_contents() == put_all(
                old(self).msgs_contents(),
                old(self).msgs_cap(),
                messages@.map_values(|m: Message| m@),
            ),
            final(self).pinned_contents() == old(self).pinned_contents(),
            final(self).meta_spec() == old(self).meta_spec(),
            final(self).counter_spec() == old(self).counter_spec(),
            final(self).msgs_cap() == old(self).msgs_cap(),
            final(self).pinned_cap() == old(self).pinned_cap(),
    {
        let ghost views = messages@.map_values(|m: Message| m@);
        let n = messages.len();
        let mut i: usize = 0;
        while i < n
            invariant
                i <= n,
                n == messages@.len(),
                old(self).wf(),
                self.wf(),
                views == messages@.map_values(|m: Message| m@),
                self.msgs_contents() == put_all(
                    old(self).msgs_contents(),
                    old(self).msgs_cap(),
                    views.take(i as int),
                ),
                self.pinned_contents() == old(self).pinned_contents(),
                self.meta_spec() == old(self).meta_spec(),
                self.counter_spec() == old(self).counter_spec(),
                self.msgs_cap() == old(self).msgs_cap(),
                self.pinned_cap() == old(self).pinned_cap(),
            decreases n - i,
        {
            let m = messages[i].clone();
            self.add_message(m);
            proof {
                assert(views.take(i + 1).drop_last() =~= views.take(i as int));
                assert(views.take(i + 1).last() == views[i as int]);
            }
            i += 1;
        }
        proof {
            assert(views.take(n as int) =~= views);
        }
    }

    /// Insert or replace one pinned message, keyed by its id.
    pub fn add_pinned_message(&mut self, notification: Message)
        requires
            old(self).wf(),
        ensures
            final(self).wf(),
            final(self).pinned_contents() == put_spec(
                old(self).pinned_contents(),
                old(self).pinned_cap(),
                notification@.id,
                notification@,
            ),
            final(self).msgs_contents() == old(self).msgs_contents(),
            final(self).meta_spec() == old(self).meta_spec(),
            final(self).counter_spec() == old(self).counter_spec(),
            final(self).msgs_cap() == old(self).msgs_cap(),
            final(self).pinned_cap() == old(self).pinned_cap(),
    {
        let key = notification.id.clone();
        let _ = self.pinned_msgs.put(key, notification);
    }

    /// Insert or replace a whole list of pinned messages, in list order.
    pub fn add_pinned_messages(&mut self, messages: &Vec<Message>)
        requires
            old(self).wf(),
        ensures
            final(self).wf(),
            final(self).pinned_contents() == put_all(
                old(self).pinned_contents(),
                old(self).pinned_cap(),
                messages@.map_values(|m: Message| m@),
            ),
            final(self).msgs_contents() == old(self).msgs_contents(),
            final(self).meta_spec() == old(self).meta_spec(),
            final(self).counter_spec() == old(self).counter_spec(),
            final(self).msgs_cap() == old(self).msgs_cap(),
            final(self).pinned_cap() == old(self).pinned_cap(),
    {
        let ghost views = messages@.map_values(|m: Message| m@);
        let n = messages.len();
        let mut i: usize = 0;
        while i < n
            invariant
                i <= n,
                n == messages@.len(),
                old(self).wf(),
                self.wf(),
                views == messages@.map_values(|m: Message| m@),
                self.pinned_contents() == put_all(
                    old(self).pinned_contents(),
                    old(self).pinned_cap(),
                    views.take(i as int),
                ),
                self.msgs_contents() == old(self).msgs_contents(),
                self.meta_spec() == old(self).meta_spec(),
                self.counter_spec() == old(self).counter_spec(),
                self.msgs_cap() == old(self).msgs_cap(),
                self.pinned_cap() == old(self).pinned_cap(),
            decreases n - i,
        {
            let m = messages[i].clone();
            self.add_pinned_message(m);
            proof {
                assert(views.take(i + 1).drop_last() =~= views.take(i as int));
                assert(views.take(i + 1).last() == views[i as int]);
            }
            i += 1;
        }
        proof {
            assert(views.take(n as int) =~= views);
        }
    }

    /// Remove the regular messages with the given ids; absent ids are
    /// silently tolerated.
    pub fn remove_msg(&mut self, ids: &Vec<String>)
        requires
            old(self).wf(),
        ensures
            final(self).wf(),
            final(self).msgs_contents() == remove_all(old(self).msgs_contents(), ids.deep_view()),
            final(self).pinned_contents() == old(self).pinned_contents(),
            final(self).meta_spec() == old(self).meta_spec(),
            final(self).counter_spec() == old(self).counter_spec(),
            final(self).msgs_cap() == old(self).msgs_cap(),
            final(self).pinned_cap() == old(self).pinned_cap(),
    {
        let ghost views = ids.deep_view();
        let n = ids.len();
        let mut i: usize = 0;
        while i < n
            invariant
                i <= n,
                n == ids@.len(),
                old(self).wf(),
                self.wf(),
                views == ids.deep_view(),
                self.msgs_contents() == remove_all(old(self).msgs_contents(), views.take(i as int)),
                self.pinned_contents() == old(self).pinned_contents(),
                self.meta_spec() == old(self).meta_spec(),
                self.counter_spec() == old(self).counter_spec(),
                self.msgs_cap() == old(self).msgs_cap(),
                self.pinned_cap() == old(self).pinned_cap(),
            decreases n - i,
        {
            let _ = self.msgs.remove(&ids[i]);
            proof {
                assert(views.take(i + 1).drop_last() =~= views.take(i as int));
                assert(views.take(i + 1).last() == views[i as int]);
            }
            i += 1;
        }
        proof {
            assert(views.take(n as int) =~= views);
        }
    }

    /// Remove the pinned messages with the given ids; absent ids are
    /// silently tolerated.
    pub fn remove_pinned_msg(&mut self, ids: &Vec<String>)
        requires
            old(self).wf(),
        ensures
            final(self).wf(),
            final(self).pinned_contents() == remove_all(
                old(self).pinned_contents(),
                ids.deep_view(),
            ),
            final(self).msgs_contents() == old(self).msgs_contents(),
            final(self).meta_spec() == old(self).meta_spec(),
            final(self).counter_spec() == old(self).counter_spec(),
            final(self).msgs_cap() == old(self).msgs_cap(),
            final(self).pinned_cap() == old(self).pinned_cap(),
    {
        let ghost views = ids.deep_view();
        let n = ids.len();
        let mut i: usize = 0;
        while i < n
            invariant
                i <= n,
                n == ids@.len(),
                old(self).wf(),
                self.wf(),
                views == ids.deep_view(),
                self.pinned_contents() == remove_all(
                    old(self).pinned_contents(),
                    views.take(i as int),
                ),
                self.msgs_contents() == old(self).msgs_contents(),
                self.meta_spec() == old(self).meta_spec(),
                self.counter_spec() == old(self).counter_spec(),
                self.msgs_cap() == old(self).msgs_cap(),
                self.pinned_cap() == old(self).pinned_cap(),
            decreases n - i,
        {
            let _ = self.pinned_msgs.remove(&ids[i]);
            proof {
                assert(views.take(i + 1).drop_last() =~= views.take(i as int));
                assert(views.take(i + 1).last() == views[i as int]);
            }
            i += 1;
        }
        proof {
            assert(views.take(n as int) =~= views);
        }
    }

    /// Drop every regular message, keeping the pinned store and metadata.
    pub fn clear_messages(&mut self)
        requires
            old(self).wf(),
        ensures
            final(self).wf(),
            final(self).msgs_contents() == Seq::<(Seq<char>, MessageView)>::empty(),
            final(self).pinned_contents() == old(self).pinned_contents(),
            final(self).meta_spec() == old(self).meta_spec(),
            final(self).counter_spec() == old(self).counter_spec(),
            final(self).msgs_cap() == old(self).msgs_cap(),
            final(self).pinned_cap() == old(self).pinned_cap(),
    {
        self.msgs.clear();
    }
}

} // verus!

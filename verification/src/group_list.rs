//! The ordered registry of message groups: a mapping from group id to group,
//! kept sorted by `(importance descending, id ascending)`.
//!
//! The registry owns its groups exclusively; every metadata change is routed
//! through it, so the derived order is consistent with the groups' metadata
//! whenever it is observed. Equal importance is broken by id, giving a
//! total, deterministic order for any input set.

use vstd::prelude::*;

use crate::cache::{put_spec, resize_spec, CacheError};
use crate::clamped;
use crate::message_group::{put_all, remove_all, GroupState, MessageGroup};
use crate::model::{self, Message, MessageGroupView, MessageView};
use crate::strings::{
    lemma_lex_lt_total, lemma_lex_lt_transitive, lex_lt, str_lt,
};

verus! {

/// The registry's total order: higher importance first, ties broken by id,
/// lexicographically ascending.
pub open spec fn group_before(a: MessageGroupView, b: MessageGroupView) -> bool {
    ||| a.importance > b.importance
    ||| (a.importance == b.importance && lex_lt(a.id, b.id))
}

/// Every pair of groups is ordered by `(importance desc, id asc)`.
pub open spec fn ordered(s: Seq<GroupState>) -> bool {
    forall|i: int, j: int| 0 <= i < j < s.len() ==> group_before(s[i].meta, s[j].meta)
}

/// No two groups share an id.
pub open spec fn distinct_ids(s: Seq<GroupState>) -> bool {
    forall|i: int, j: int| 0 <= i < j < s.len() ==> s[i].meta.id != s[j].meta.id
}

/// Some group has the given id.
pub open spec fn has_gid(s: Seq<GroupState>, id: Seq<char>) -> bool {
    exists|i: int| 0 <= i < s.len() && s[i].meta.id == id
}

/// The position of the first group with the given id.
pub open spec fn gid_index(s: Seq<GroupState>, id: Seq<char>) -> int
    recommends
        has_gid(s, id),
    decreases s.len(),
{
    if s.len() == 0 {
        0
    } else if s.first().meta.id == id {
        0
    } else {
        1 + gid_index(s.drop_first(), id)
    }
}

/// The groups without the first one carrying the given id (under
/// `distinct_ids`, without the only one).
pub open spec fn remove_gid(s: Seq<GroupState>, id: Seq<char>) -> Seq<GroupState>
    decreases s.len(),
{
    if s.len() == 0 {
        Seq::empty()
    } else if s.first().meta.id == id {
        s.drop_first()
    } else {
        seq![s.first()] + remove_gid(s.drop_first(), id)
    }
}

/// The position at which a group with metadata `m` belongs in the order.
pub open spec fn insert_position(s: Seq<GroupState>, m: MessageGroupView) -> int
    decreases s.len(),
{
    if s.len() == 0 {
        0
    } else if group_before(m, s.first().meta) {
        0
    } else {
        1 + insert_position(s.drop_first(), m)
    }
}

/// What `add_group` does to the registry: any group under the same id is
/// replaced, and the new group stands at its ordered position.
pub open spec fn insert_group(s: Seq<GroupState>, g: GroupState) -> Seq<GroupState> {
    let cleaned = remove_gid(s, g.meta.id);
    cleaned.insert(insert_position(cleaned, g.meta), g)
}

/// What adding a whole list of groups, first to last, does to the registry.
pub open spec fn insert_groups(s: Seq<GroupState>, gs: Seq<GroupState>) -> Seq<GroupState>
    decreases gs.len(),
{
    if gs.len() == 0 {
        s
    } else {
        insert_group(insert_groups(s, gs.drop_last()), gs.last())
    }
}

/// What removing a whole list of ids, first to last, does to the registry.
pub open spec fn remove_gids(s: Seq<GroupState>, ids: Seq<Seq<char>>) -> Seq<GroupState>
    decreases ids.len(),
{
    if ids.len() == 0 {
        s
    } else {
        remove_gid(remove_gids(s, ids.drop_last()), ids.last())
    }
}

/// The order is total over distinct ids.
proof fn lemma_group_before_total(a: MessageGroupView, b: MessageGroupView)
    requires
        a.id != b.id,
    ensures
        group_before(a, b) || group_before(b, a),
{
    lemma_lex_lt_total(a.id, b.id);
}

/// The order is transitive.
proof fn lemma_group_before_transitive(a: MessageGroupView, b: MessageGroupView, c: MessageGroupView)
    requires
        group_before(a, b),
        group_before(b, c),
    ensures
        group_before(a, c),
{
    if a.importance == b.importance && b.importance == c.importance {
        lemma_lex_lt_transitive(a.id, b.id, c.id);
    }
}

/// `remove_gid` at a witness index removes exactly the group at that index.
proof fn lemma_gid_at(s: Seq<GroupState>, id: Seq<char>, i: int)
    requires
        0 <= i < s.len(),
        s[i].meta.id == id,
        forall|j: int| 0 <= j < i ==> s[j].meta.id != id,
    ensures
        remove_gid(s, id) == s.remove(i),
        gid_index(s, id) == i,
        has_gid(s, id),
    decreases i,
{
    if i == 0 {
        assert(remove_gid(s, id) =~= s.remove(0));
    } else {
        assert(s.first().meta.id != id);
        assert forall|j: int| 0 <= j < i - 1 implies s.drop_first()[j].meta.id != id by {
            assert(s[j + 1].meta.id != id);
        }
        lemma_gid_at(s.drop_first(), id, i - 1);
        assert(remove_gid(s, id) =~= s.remove(i));
    }
}

/// Removing an absent id changes nothing.
proof fn lemma_gid_absent(s: Seq<GroupState>, id: Seq<char>)
    requires
        !has_gid(s, id),
    ensures
        remove_gid(s, id) == s,
    decreases s.len(),
{
    if s.len() == 0 {
        assert(remove_gid(s, id) =~= s);
    } else {
        assert(s[0].meta.id != id);
        assert forall|j: int| 0 <= j < s.drop_first().len() implies s.drop_first()[j].meta.id
            != id by {
            assert(s[j + 1].meta.id != id);
        }
        lemma_gid_absent(s.drop_first(), id);
        assert(remove_gid(s, id) =~= s);
    }
}

/// Under the registry invariant, removing an id keeps the rest ordered and
/// distinct, and forgets exactly that id.
proof fn lemma_remove_gid_props(s: Seq<GroupState>, id: Seq<char>)
    requires
        ordered(s),
        distinct_ids(s),
    ensures
        !has_gid(remove_gid(s, id), id),
        ordered(remove_gid(s, id)),
        distinct_ids(remove_gid(s, id)),
        has_gid(s, id) ==> remove_gid(s, id).len() == s.len() - 1,
        !has_gid(s, id) ==> remove_gid(s, id) == s,
{
    if has_gid(s, id) {
        let i = choose|i: int| 0 <= i < s.len() && s[i].meta.id == id;
        assert forall|j: int| 0 <= j < i implies s[j].meta.id != id by {
            assert(s[j].meta.id != s[i].meta.id);
        }
        lemma_gid_at(s, id, i);
        let r = s.remove(i);
        assert forall|a: int, b: int|
            0 <= a < b < r.len() implies group_before(r[a].meta, r[b].meta) && r[a].meta.id
            != r[b].meta.id by {
            let a0: int = if a < i {
                a
            } else {
                a + 1
            };
            let b0: int = if b < i {
                b
            } else {
                b + 1
            };
            assert(r[a] == s[a0]);
            assert(r[b] == s[b0]);
        }
        assert forall|j: int| 0 <= j < r.len() implies r[j].meta.id != id by {
            let j0: int = if j < i {
                j
            } else {
                j + 1
            };
            assert(r[j] == s[j0]);
            assert(s[j0].meta.id != s[i].meta.id);
        }
    } else {
        lemma_gid_absent(s, id);
    }
}

/// The scan the registry makes to place a group agrees with
/// `insert_position`.
proof fn lemma_insert_position_from_scan(s: Seq<GroupState>, m: MessageGroupView, p: int)
    requires
        0 <= p <= s.len(),
        forall|j: int| 0 <= j < p ==> !group_before(m, s[j].meta),
        p < s.len() ==> group_before(m, s[p].meta),
    ensures
        insert_position(s, m) == p,
    decreases p,
{
    if p == 0 {
    } else {
        assert(!group_before(m, s[0].meta));
        assert forall|j: int| 0 <= j < p - 1 implies !group_before(m, s.drop_first()[j].meta) by {
            assert(s.drop_first()[j] == s[j + 1]);
        }
        if p - 1 < s.drop_first().len() {
            assert(s.drop_first()[p - 1] == s[p]);
        }
        lemma_insert_position_from_scan(s.drop_first(), m, p - 1);
    }
}

/// Inserting a fresh id at its ordered position keeps the registry ordered
/// and its ids distinct.
proof fn lemma_insert_sorted(s: Seq<GroupState>, g: GroupState)
    requires
        ordered(s),
        distinct_ids(s),
        !has_gid(s, g.meta.id),
    ensures
        ordered(s.insert(insert_position(s, g.meta), g)),
        distinct_ids(s.insert(insert_position(s, g.meta), g)),
    decreases s.len(),
{
    let p = insert_position(s, g.meta);
    lemma_insert_position_bounds(s, g.meta);
    let out = s.insert(p, g);
    assert forall|j: int| 0 <= j < p implies !group_before(g.meta, s[j].meta) by {
        lemma_insert_position_scan_back(s, g.meta, j);
    }
    assert forall|a: int, b: int|
        0 <= a < b < out.len() implies group_before(out[a].meta, out[b].meta) && out[a].meta.id
        != out[b].meta.id by {
        let a0: int = if a < p {
            a
        } else {
            a - 1
        };
        let b0: int = if b < p {
            b
        } else {
            b - 1
        };
        if a == p {
            // `g` before a later element: it is before `s[p]`, which is
            // before or equal to the later element.
            assert(out[b] == s[b0]);
            assert(s[b0].meta.id != g.meta.id);
            if b0 == p {
                assert(group_before(g.meta, s[p].meta));
            } else {
                assert(group_before(g.meta, s[p].meta));
                assert(group_before(s[p].meta, s[b0].meta));
                lemma_group_before_transitive(g.meta, s[p].meta, s[b0].meta);
            }
        } else if b == p {
            assert(out[a] == s[a0]);
            assert(s[a0].meta.id != g.meta.id);
            assert(!group_before(g.meta, s[a0].meta));
            lemma_group_before_total(s[a0].meta, g.meta);
        } else {
            assert(out[a] == s[a0]);
            assert(out[b] == s[b0]);
        }
    }
}

proof fn lemma_insert_position_bounds(s: Seq<GroupState>, m: MessageGroupView)
    ensures
        0 <= insert_position(s, m) <= s.len(),
        insert_position(s, m) < s.len() ==> group_before(m, s[insert_position(s, m)].meta),
    decreases s.len(),
{
    if s.len() > 0 && !group_before(m, s.first().meta) {
        lemma_insert_position_bounds(s.drop_first(), m);
        if insert_position(s.drop_first(), m) < s.drop_first().len() {
            assert(s.drop_first()[insert_position(s.drop_first(), m)] == s[1 + insert_position(
                s.drop_first(),
                m,
            )]);
        }
    }
}

proof fn lemma_insert_position_scan_back(s: Seq<GroupState>, m: MessageGroupView, j: int)
    requires
        0 <= j < insert_position(s, m),
        insert_position(s, m) <= s.len(),
    ensures
        !group_before(m, s[j].meta),
    decreases j,
{
    if j == 0 {
        assert(!group_before(m, s.first().meta));
    } else {
        assert(s.drop_first()[j - 1] == s[j]);
        lemma_insert_position_scan_back(s.drop_first(), m, j - 1);
    }
}

/// A list of message groups, sorted by their metadata.
pub struct GroupList {
    groups: Vec<MessageGroup>,
}

impl GroupList {
    /// The registered groups, in the derived order.
    pub closed spec fn groups_view(&self) -> Seq<GroupState> {
        self.groups@.map_values(|g: MessageGroup| g.state())
    }

    /// Invariant: every group is well formed, the order is sorted by
    /// `(importance desc, id asc)`, and ids are unique.
    pub closed spec fn wf(&self) -> bool {
        &&& forall|i: int| 0 <= i < self.groups@.len() ==> (#[trigger] self.groups@[i]).wf()
        &&& ordered(self.groups_view())
        &&& distinct_ids(self.groups_view())
    }

    /// A well-formed registry orders every pair of groups by
    /// `(importance desc, id asc)` and holds each id at most once.
    pub proof fn lemma_registry_pairwise_order(&self)
        requires
            self.wf(),
        ensures
            ordered(self.groups_view()),
            distinct_ids(self.groups_view()),
    {
    }

    /// Initialize an empty new group list.
    pub fn new() -> (r: Self)
        ensures
            r.wf(),
            r.groups_view() == Seq::<GroupState>::empty(),
    {
        let r = GroupList { groups: Vec::new() };
        proof {
            assert(r.groups_view() =~= Seq::<GroupState>::empty());
        }
        r
    }
}

impl Default for GroupList {
    /// The empty group list.
    fn default() -> (r: Self)
        ensures
            r.wf(),
            r.groups_view() == Seq::<GroupState>::empty(),
    {
        GroupList::new()
    }
}

impl GroupList {

    /// How many groups are registered.
    pub fn len(&self) -> (r: usize)
        ensures
            r == self.groups_view().len(),
    {
        self.groups.len()
    }

    /// Whether no group is registered.
    pub fn is_empty(&self) -> (r: bool)
        ensures
            r == (self.groups_view().len() == 0),
    {
        self.groups.len() == 0
    }

    /// The position of the group with the given id, if any.
    fn find_group(&self, id: &String) -> (r: Option<usize>)
        ensures
            match r {
                Some(i) => i < self.groups_view().len() && self.groups_view()[i as int].meta.id
                    == id@ && (forall|j: int|
                    0 <= j < i ==> self.groups_view()[j].meta.id != id@),
                None => !has_gid(self.groups_view(), id@),
            },
    {
        let n = self.groups.len();
        let mut i: usize = 0;
        while i < n
            invariant
                i <= n,
                n == self.groups_view().len(),
                forall|j: int| 0 <= j < i ==> self.groups_view()[j].meta.id != id@,
            decreases n - i,
        {
            if self.groups[i].meta().id == *id {
                return Some(i);
            }
            i += 1;
        }
        None
    }

    /// Whether `a` stands before `b` in the derived order.
    fn comes_before(a: &MessageGroup, b: &MessageGroup) -> (r: bool)
        ensures
            r == group_before(a.state().meta, b.state().meta),
    {
        let a_meta = a.meta();
        let b_meta = b.meta();
        if a_meta.importance != b_meta.importance {
            a_meta.importance > b_meta.importance
        } else {
            str_lt(a_meta.id.as_str(), b_meta.id.as_str())
        }
    }

    /// Place a group with a fresh id at its ordered position.
    fn insert_sorted_group(&mut self, group: MessageGroup)
        requires
            old(self).wf(),
            group.wf(),
            !has_gid(old(self).groups_view(), group.state().meta.id),
        ensures
            final(self).wf(),
            final(self).groups_view() == old(self).groups_view().insert(
                insert_position(old(self).groups_view(), group.state().meta),
                group.state(),
            ),
    {
        let n = self.groups.len();
        let mut p: usize = 0;
        loop
            invariant
                p <= n,
                n == self.groups_view().len(),
                self == old(self),
                forall|j: int|
                    0 <= j < p ==> !group_before(group.state().meta, self.groups_view()[j].meta),
            ensures
                p <= n,
                self == old(self),
                forall|j: int|
                    0 <= j < p ==> !group_before(group.state().meta, self.groups_view()[j].meta),
                p < n ==> group_before(group.state().meta, self.groups_view()[p as int].meta),
            decreases n - p,
        {
            if p >= n {
                break ;
            }
            if Self::comes_before(&group, &self.groups[p]) {
                break ;
            }
            p += 1;
        }
        proof {
            lemma_insert_position_from_scan(self.groups_view(), group.state().meta, p as int);
            lemma_insert_sorted(self.groups_view(), group.state());
        }
        self.groups.insert(p, group);
        proof {
            assert(self.groups_view() =~= old(self).groups_view().insert(
                insert_position(old(self).groups_view(), group.state().meta),
                group.state(),
            ));
        }
    }

    /// Insert a group into the list at its ordered position. A group already
    /// registered under the same id is replaced.
    pub fn add_group(&mut self, group: MessageGroup)
        requires
            old(self).wf(),
            group.wf(),
        ensures
            final(self).wf(),
            final(self).groups_view() == insert_group(old(self).groups_view(), group.state()),
    {
        let id = group.meta().id.clone();
        let _replaced = self.remove_group(&id);
        proof {
            lemma_remove_gid_props(old(self).groups_view(), id@);
        }
        self.insert_sorted_group(group);
    }

    /// Insert many groups, first to last, so that a later group replaces an
    /// earlier one sharing its id.
    pub fn add_groups(&mut self, groups: Vec<MessageGroup>)
        requires
            old(self).wf(),
            forall|i: int| 0 <= i < groups@.len() ==> (#[trigger] groups@[i]).wf(),
        ensures
            final(self).wf(),
            final(self).groups_view() == insert_groups(
                old(self).groups_view(),
                groups@.map_values(|g: MessageGroup| g.state()),
            ),
    {
        let ghost orig = groups@.map_values(|g: MessageGroup| g.state());
        let mut groups = groups;
        while groups.len() > 0
            invariant
                self.wf(),
                groups@.len() <= orig.len(),
                forall|i: int| 0 <= i < groups@.len() ==> (#[trigger] groups@[i]).wf(),
                groups@.map_values(|g: MessageGroup| g.state()) == orig.skip(
                    orig.len() - groups@.len(),
                ),
                self.groups_view() == insert_groups(
                    old(self).groups_view(),
                    orig.take(orig.len() - groups@.len()),
                ),
            decreases groups@.len(),
        {
            let ghost done: int = orig.len() - groups@.len();
            let ghost prev = groups@;
            let g = groups.remove(0);
            proof {
                assert(prev.map_values(|g2: MessageGroup| g2.state())[0] == prev[0].state());
                assert(orig.skip(done)[0] == orig[done]);
                assert(g.state() == orig[done]);
            }
            self.add_group(g);
            proof {
                assert(orig.take(done + 1).drop_last() =~= orig.take(done));
                assert(orig.take(done + 1).last() == orig[done]);
                assert forall|j: int|
                    0 <= j < groups@.len() implies groups@.map_values(
                    |g2: MessageGroup| g2.state(),
                )[j] == #[trigger] (orig.skip(done + 1)[j]) by {
                    assert(groups@[j] == prev[j + 1]);
                    assert(prev.map_values(|g2: MessageGroup| g2.state())[j + 1] == prev[j
                        + 1].state());
                    assert(orig.skip(done)[j + 1] == orig[done + 1 + j]);
                    assert(orig.skip(done + 1)[j] == orig[done + 1 + j]);
                }
                assert(groups@.map_values(|g2: MessageGroup| g2.state()) =~= orig.skip(done + 1));
            }
        }
        proof {
            assert(orig.take(orig.len() as int) =~= orig);
        }
    }

    /// Remove the group with the given id, and return it if it was there.
    /// Removing an absent id leaves the registry untouched.
    pub fn remove_group(&mut self, id: &String) -> (r: Option<MessageGroup>)
        requires
            old(self).wf(),
        ensures
            final(self).wf(),
            final(self).groups_view() == remove_gid(old(self).groups_view(), id@),
            match r {
                Some(g) => has_gid(old(self).groups_view(), id@) && g.wf() && g.state() == old(
                    self,
                ).groups_view()[gid_index(old(self).groups_view(), id@)],
                None => !has_gid(old(self).groups_view(), id@) && *final(self) == *old(self),
            },
    {
        proof {
            lemma_remove_gid_props(old(self).groups_view(), id@);
        }
        match self.find_group(id) {
            Some(i) => {
                proof {
                    lemma_gid_at(old(self).groups_view(), id@, i as int);
                }
                let removed = self.groups.remove(i);
                proof {
                    assert(self.groups_view() =~= old(self).groups_view().remove(i as int));
                }
                Some(removed)
            },
            None => {
                proof {
                    lemma_gid_absent(old(self).groups_view(), id@);
                }
                None
            },
        }
    }

    /// Remove every group named in the list; absent ids are silently
    /// tolerated.
    pub fn remove_groups(&mut self, ids: &Vec<String>)
        requires
            old(self).wf(),
        ensures
            final(self).wf(),
            final(self).groups_view() == remove_gids(old(self).groups_view(), ids.deep_view()),
    {
        let ghost views = ids.deep_view();
        let n = ids.len();
        let mut i: usize = 0;
        while i < n
            invariant
                i <= n,
                n == ids@.len(),
                views == ids.deep_view(),
                self.wf(),
                self.groups_view() == remove_gids(old(self).groups_view(), views.take(i as int)),
            decreases n - i,
        {
            let _removed = self.remove_group(&ids[i]);
            proof {
                assert(views.take(i + 1).drop_last() =~= views.take(i as int));
                assert(views.take(i + 1).last() == views[i as int]);
            }
            i += 1;
        }
        proof {
            assert(views.take(n as int) =~= views);
        }
    }

    /// The group with the given id, if any.
    pub fn get_group(&self, id: &String) -> (r: Option<&MessageGroup>)
        requires
            self.wf(),
        ensures
            match r {
                Some(g) => has_gid(self.groups_view(), id@) && g.wf() && g.state()
                    == self.groups_view()[gid_index(self.groups_view(), id@)],
                None => !has_gid(self.groups_view(), id@),
            },
    {
        match self.find_group(id) {
            Some(i) => {
                proof {
                    lemma_gid_at(self.groups_view(), id@, i as int);
                }
                Some(&self.groups[i])
            },
            None => None,
        }
    }

    /// The groups in the derived order, as a finite, restartable sequence of
    /// `(id, group)` entries readable through each group's accessors. Every
    /// yielded group is well formed.
    pub fn iter(&self) -> (r: &Vec<MessageGroup>)
        requires
            self.wf(),
        ensures
            r@.map_values(|g: MessageGroup| g.state()) == self.groups_view(),
            forall|i: int| 0 <= i < r@.len() ==> (#[trigger] r@[i]).wf(),
    {
        &self.groups
    }

    /// Add a whole list of messages to the group with the given id, in list
    /// order. A command naming an unknown group is dropped: the registry is
    /// left unchanged and `false` comes back.
    pub fn add_messages_to(&mut self, id: &String, items: &Vec<Message>) -> (r: bool)
        requires
            old(self).wf(),
        ensures
            final(self).wf(),
            r == has_gid(old(self).groups_view(), id@),
            !has_gid(old(self).groups_view(), id@) ==> *final(self) == *old(self),
            has_gid(old(self).groups_view(), id@) ==> final(self).groups_view() == old(
                self,
            ).groups_view().update(
                gid_index(old(self).groups_view(), id@),
                (GroupState {
                    msgs: put_all(
                        old(self).groups_view()[gid_index(old(self).groups_view(), id@)].msgs,
                        old(self).groups_view()[gid_index(old(self).groups_view(), id@)].msgs_cap,
                        items@.map_values(|m: Message| m@),
                    ),
                    ..old(self).groups_view()[gid_index(old(self).groups_view(), id@)]
                }),
            ),
    {
        match self.find_group(id) {
            Some(i) => {
                proof {
                    lemma_gid_at(old(self).groups_view(), id@, i as int);
                }
                let g = &mut self.groups[i];
                g.add_messages(items);
                proof {
                    self.lemma_update_in_place(*old(self), i as int);
                }
                true
            },
            None => false,
        }
    }

    /// Remove the listed message ids from the group with the given id; both
    /// an unknown group and absent message ids are silently tolerated.
    pub fn remove_messages_from(&mut self, id: &String, message_ids: &Vec<String>) -> (r: bool)
        requires
            old(self).wf(),
        ensures
            final(self).wf(),
            r == has_gid(old(self).groups_view(), id@),
            !has_gid(old(self).groups_view(), id@) ==> *final(self) == *old(self),
            has_gid(old(self).groups_view(), id@) ==> final(self).groups_view() == old(
                self,
            ).groups_view().update(
                gid_index(old(self).groups_view(), id@),
                (GroupState {
                    msgs: remove_all(
                        old(self).groups_view()[gid_index(old(self).groups_view(), id@)].msgs,
                        message_ids.deep_view(),
                    ),
                    ..old(self).groups_view()[gid_index(old(self).groups_view(), id@)]
                }),
            ),
    {
        match self.find_group(id) {
            Some(i) => {
                proof {
                    lemma_gid_at(old(self).groups_view(), id@, i as int);
                }
                let g = &mut self.groups[i];
                g.remove_msg(message_ids);
                proof {
                    self.lemma_update_in_place(*old(self), i as int);
                }
                true
            },
            None => false,
        }
    }

    /// Set the counter of the group with the given id to an absolute value.
    /// A command naming an unknown group is dropped: the registry is left
    /// unchanged and `false` comes back.
    pub fn set_counter_of(&mut self, id: &String, counter: u64) -> (r: bool)
        requires
            old(self).wf(),
        ensures
            final(self).wf(),
            r == has_gid(old(self).groups_view(), id@),
            !has_gid(old(self).groups_view(), id@) ==> *final(self) == *old(self),
            has_gid(old(self).groups_view(), id@) ==> final(self).groups_view() == old(
                self,
            ).groups_view().update(
                gid_index(old(self).groups_view(), id@),
                (GroupState {
                    counter,
                    ..old(self).groups_view()[gid_index(old(self).groups_view(), id@)]
                }),
            ),
    {
        match self.find_group(id) {
            Some(i) => {
                proof {
                    lemma_gid_at(old(self).groups_view(), id@, i as int);
                }
                let g = &mut self.groups[i];
                g.set_counter(counter);
                proof {
                    self.lemma_update_in_place(*old(self), i as int);
                }
                true
            },
            None => false,
        }
    }

    /// Replace the metadata of the group with the given id and move it to
    /// its new ordered position. An unknown group id comes back as
    /// `Ok(false)`; a zero capacity is rejected without mutating anything.
    pub fn set_group_meta(&mut self, id: &String, meta: model::MessageGroup) -> (r: Result<
        bool,
        CacheError,
    >)
        requires
            old(self).wf(),
        ensures
            final(self).wf(),
            !has_gid(old(self).groups_view(), id@) ==> r == Result::<bool, CacheError>::Ok(false)
                && *final(self) == *old(self),
            has_gid(old(self).groups_view(), id@) && (meta@.capacity == 0 || meta@.pinned_capacity
                == 0) ==> r == Result::<bool, CacheError>::Err(CacheError::ZeroCapacity)
                && *final(self) == *old(self),
            has_gid(old(self).groups_view(), id@) && meta@.capacity >= 1 && meta@.pinned_capacity
                >= 1 ==> r == Result::<bool, CacheError>::Ok(true) && final(self).groups_view()
                == insert_group(
                remove_gid(old(self).groups_view(), id@),
                (GroupState {
                    meta: meta@,
                    counter: old(self).groups_view()[gid_index(old(self).groups_view(), id@)].counter,
                    msgs: resize_spec(
                        old(self).groups_view()[gid_index(old(self).groups_view(), id@)].msgs,
                        clamped(meta@.capacity),
                    ),
                    pinned: resize_spec(
                        old(self).groups_view()[gid_index(old(self).groups_view(), id@)].pinned,
                        clamped(meta@.pinned_capacity),
                    ),
                    msgs_cap: clamped(meta@.capacity) as nat,
                    pinned_cap: clamped(meta@.pinned_capacity) as nat,
                }),
            ),
    {
        if self.find_group(id).is_none() {
            return Ok(false);
        }
        if meta.capacity == 0 || meta.pinned_capacity == 0 {
            return Err(CacheError::ZeroCapacity);
        }
        let removed = self.remove_group(id);
        match removed {
            Some(mut g) => {
                let _ = g.set_meta(meta);
                proof {
                    lemma_remove_gid_props(old(self).groups_view(), id@);
                }
                self.insert_sorted_group_replacing(g);
                Ok(true)
            },
            None => {
                // `find_group` found the id, so `remove_group` returns it.
                proof {
                    assert(false);
                }
                Ok(false)
            },
        }
    }

    /// Place a group at its ordered position, replacing any group already
    /// registered under its id.
    fn insert_sorted_group_replacing(&mut self, group: MessageGroup)
        requires
            old(self).wf(),
            group.wf(),
        ensures
            final(self).wf(),
            final(self).groups_view() == insert_group(old(self).groups_view(), group.state()),
    {
        let id = group.meta().id.clone();
        let _replaced = self.remove_group(&id);
        proof {
            lemma_remove_gid_props(old(self).groups_view(), id@);
        }
        self.insert_sorted_group(group);
    }

    /// After mutating one group in place without touching its metadata, the
    /// registry view is the old view with that position updated, and the
    /// invariant still holds.
    proof fn lemma_update_in_place(&self, prev: GroupList, i: int)
        requires
            prev.wf(),
            0 <= i < prev.groups@.len(),
            self.groups@.len() == prev.groups@.len(),
            self.groups@[i].wf(),
            self.groups@[i].state().meta == prev.groups_view()[i].meta,
            forall|j: int|
                0 <= j < prev.groups@.len() && j != i ==> self.groups@[j] == prev.groups@[j],
        ensures
            self.wf(),
            self.groups_view() == prev.groups_view().update(i, self.groups_view()[i]),
    {
        assert forall|j: int| 0 <= j < self.groups@.len() implies (#[trigger] self.groups@[j]).wf()
            by {
            if j != i {
                assert(self.groups@[j] == prev.groups@[j]);
                assert(prev.groups@[j].wf());
            }
        }
        assert forall|a: int, b: int|
            0 <= a < b < self.groups_view().len() implies group_before(
            self.groups_view()[a].meta,
            self.groups_view()[b].meta,
        ) && self.groups_view()[a].meta.id != self.groups_view()[b].meta.id by {
            assert(self.groups_view()[a].meta == prev.groups_view()[a].meta);
            assert(self.groups_view()[b].meta == prev.groups_view()[b].meta);
            assert(group_before(prev.groups_view()[a].meta, prev.groups_view()[b].meta));
            assert(prev.groups_view()[a].meta.id != prev.groups_view()[b].meta.id);
        }
        assert(self.groups_view() =~= prev.groups_view().update(i, self.groups_view()[i]));
    }
}

} // verus!

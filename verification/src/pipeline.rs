//! The batched mutation pipeline: commands arriving in bursts are buffered
//! while the pipeline is draining, and applied to the registry as one atomic
//! batch, in arrival order, under a single write acquisition, when the
//! quiescence window elapses or a flush is requested.
//!
//! Per-command failures are isolated: a command naming an unknown group, or
//! requesting a zero capacity, is dropped, and the rest of the batch
//! proceeds.

use vstd::prelude::*;

use crate::clamped;
use crate::group_list::{gid_index, has_gid, insert_group, GroupList};
use crate::message::ApiMessage;
use crate::message_group::{put_all, remove_all, GroupState, MessageGroup};
use crate::model::{Message, MessageGroupView};
use crate::util::{written_state, DirtyCheckLock};

verus! {

/// The state a freshly created group starts in.
pub open spec fn fresh_group_state(meta: MessageGroupView) -> GroupState {
    GroupState {
        meta,
        counter: 0,
        msgs: Seq::empty(),
        pinned: Seq::empty(),
        msgs_cap: clamped(meta.capacity) as nat,
        pinned_cap: clamped(meta.pinned_capacity) as nat,
    }
}

/// What one command does to the registry. A command naming an unknown group,
/// or requesting a zero capacity, is dropped and changes nothing.
pub open spec fn apply_command_spec(s: Seq<GroupState>, cmd: ApiMessage) -> Seq<GroupState> {
    match cmd {
        ApiMessage::Add(msg) => if has_gid(s, msg.group@) {
            s.update(
                gid_index(s, msg.group@),
                (GroupState {
                    msgs: put_all(
                        s[gid_index(s, msg.group@)].msgs,
                        s[gid_index(s, msg.group@)].msgs_cap,
                        msg.items@.map_values(|m: Message| m@),
                    ),
                    ..s[gid_index(s, msg.group@)]
                }),
            )
        } else {
            s
        },
        ApiMessage::Remove(msg) => if has_gid(s, msg.group@) {
            s.update(
                gid_index(s, msg.group@),
                (GroupState {
                    msgs: remove_all(s[gid_index(s, msg.group@)].msgs, msg.items.deep_view()),
                    ..s[gid_index(s, msg.group@)]
                }),
            )
        } else {
            s
        },
        ApiMessage::PutGroup(msg) => if msg.group@.capacity >= 1 && msg.group@.pinned_capacity
            >= 1 {
            insert_group(s, fresh_group_state(msg.group@))
        } else {
            s
        },
        ApiMessage::SetGroupCounter(msg) => if has_gid(s, msg.group@) {
            s.update(
                gid_index(s, msg.group@),
                (GroupState { counter: msg.counter, ..s[gid_index(s, msg.group@)] }),
            )
        } else {
            s
        },
        ApiMessage::Config => s,
    }
}

/// What a whole batch does to the registry: each command in arrival order.
pub open spec fn apply_batch_spec(s: Seq<GroupState>, cmds: Seq<ApiMessage>) -> Seq<GroupState>
    decreases cmds.len(),
{
    if cmds.len() == 0 {
        s
    } else {
        apply_command_spec(apply_batch_spec(s, cmds.drop_last()), cmds.last())
    }
}

/// Apply one command to the registry. Unknown group ids and zero capacities
/// drop the command; no failure is surfaced to the producer.
pub fn apply_command(registry: &mut GroupList, cmd: &ApiMessage)
    requires
        old(registry).wf(),
    ensures
        final(registry).wf(),
        final(registry).groups_view() == apply_command_spec(old(registry).groups_view(), *cmd),
{
    match cmd {
        ApiMessage::Add(msg) => {
            let _found = registry.add_messages_to(&msg.group, &msg.items);
        },
        ApiMessage::Remove(msg) => {
            let _found = registry.remove_messages_from(&msg.group, &msg.items);
        },
        ApiMessage::PutGroup(msg) => {
            match MessageGroup::new(msg.group.clone()) {
                Ok(group) => {
                    registry.add_group(group);
                },
                Err(_zero_capacity) => {
                    // The capacity error is isolated to this command.
                },
            }
        },
        ApiMessage::SetGroupCounter(msg) => {
            let _found = registry.set_counter_of(&msg.group, msg.counter);
        },
        ApiMessage::Config => {
            // Not yet supported; dropped.
        },
    }
}

/// Apply a whole batch of commands to the registry, in arrival order.
pub fn apply_batch(registry: &mut GroupList, cmds: &Vec<ApiMessage>)
    requires
        old(registry).wf(),
    ensures
        final(registry).wf(),
        final(registry).groups_view() == apply_batch_spec(old(registry).groups_view(), cmds@),
{
    let n = cmds.len();
    let mut i: usize = 0;
    while i < n
        invariant
            i <= n,
            n == cmds@.len(),
            registry.wf(),
            registry.groups_view() == apply_batch_spec(
                old(registry).groups_view(),
                cmds@.take(i as int),
            ),
        decreases n - i,
    {
        apply_command(registry, &cmds[i]);
        proof {
            assert(cmds@.take(i + 1).drop_last() =~= cmds@.take(i as int));
            assert(cmds@.take(i + 1).last() == cmds@[i as int]);
        }
        i += 1;
    }
    proof {
        assert(cmds@.take(n as int) =~= cmds@);
    }
}

/// Whether the pipeline is waiting for a first command or actively pulling
/// queued ones.
#[derive(PartialEq, Eq, Structural, Debug, Clone, Copy)]
pub enum PipelineState {
    /// Waiting for either a new command or a timer.
    Idle,
    /// Actively pulling queued commands into the buffer.
    Draining,
}

/// The ingestion pipeline: buffers a burst of commands and applies it as one
/// atomic batch, so a flood of updates causes at most one dirty-flag
/// transition and one reorder per quiescence window.
pub struct IngestionPipeline {
    state: PipelineState,
    buffer: Vec<ApiMessage>,
}

impl IngestionPipeline {
    /// Whether the pipeline is idle or draining.
    pub closed spec fn state_spec(&self) -> PipelineState {
        self.state
    }

    /// The buffered commands, in arrival order.
    pub closed spec fn buffer_spec(&self) -> Seq<ApiMessage> {
        self.buffer@
    }

    /// A new pipeline: idle, with nothing buffered.
    pub fn new() -> (r: IngestionPipeline)
        ensures
            r.state_spec() == PipelineState::Idle,
            r.buffer_spec() == Seq::<ApiMessage>::empty(),
    {
        IngestionPipeline { state: PipelineState::Idle, buffer: Vec::new() }
    }

    /// The pipeline's state, for the driver that arms the quiescence timer.
    pub fn state(&self) -> (r: PipelineState)
        ensures
            r == self.state_spec(),
    {
        self.state
    }

    /// How many commands are buffered.
    pub fn buffered(&self) -> (r: usize)
        ensures
            r == self.buffer_spec().len(),
    {
        self.buffer.len()
    }

    /// A command arrived: buffer it and drain. A command once enqueued will
    /// be applied; there is no mid-batch cancellation.
    pub fn on_command(&mut self, cmd: ApiMessage)
        ensures
            final(self).state_spec() == PipelineState::Draining,
            final(self).buffer_spec() == old(self).buffer_spec().push(cmd),
    {
        self.buffer.push(cmd);
        self.state = PipelineState::Draining;
    }

    /// Flush the buffered batch: apply every command, in arrival order,
    /// under a single write acquisition of the registry, and go idle. The
    /// acquisition marks the registry dirty even when the batch was empty.
    pub fn flush(&mut self, registry: &mut DirtyCheckLock<GroupList>)
        requires
            old(registry)@.value.wf(),
        ensures
            final(self).state_spec() == PipelineState::Idle,
            final(self).buffer_spec() == Seq::<ApiMessage>::empty(),
            final(registry)@.dirty == true,
            final(registry)@.value.wf(),
            final(registry)@.value.groups_view() == apply_batch_spec(
                old(registry)@.value.groups_view(),
                old(self).buffer_spec(),
            ),
    {
        let reg = registry.write();
        apply_batch(reg, &self.buffer);
        self.buffer.clear();
        self.state = PipelineState::Idle;
    }

    /// The quiescence window elapsed with no new command. A draining
    /// pipeline flushes and goes idle; an idle pipeline leaves the registry
    /// entirely untouched, its dirty flag included.
    pub fn on_quiescence(&mut self, registry: &mut DirtyCheckLock<GroupList>)
        requires
            old(registry)@.value.wf(),
        ensures
            final(self).state_spec() == PipelineState::Idle,
            old(self).state_spec() == PipelineState::Draining ==> {
                &&& final(self).buffer_spec() == Seq::<ApiMessage>::empty()
                &&& final(registry)@.dirty == true
                &&& final(registry)@.value.wf()
                &&& final(registry)@.value.groups_view() == apply_batch_spec(
                    old(registry)@.value.groups_view(),
                    old(self).buffer_spec(),
                )
            },
            old(self).state_spec() == PipelineState::Idle ==> *final(registry) == *old(registry)
                && *final(self) == *old(self),
    {
        match self.state {
            PipelineState::Draining => {
                self.flush(registry);
            },
            PipelineState::Idle => {
            },
        }
    }
}

} // verus!

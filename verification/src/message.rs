//! The mutation commands a transport hands to the ingestion pipeline, after
//! decoding them at the wire boundary.

use vstd::prelude::*;

use crate::model::{self, Message};

verus! {

/// A decoded mutation command.
pub enum ApiMessage {
    /// Add messages to a group.
    Add(AddMsg),
    /// Remove messages from a group.
    Remove(RemoveMsg),
    /// Create or replace a group.
    PutGroup(PutGroupMsg),
    /// Set the counter of a group.
    SetGroupCounter(SetGroupCounterMsg),
    /// Reserved configuration command; not yet supported, dropped on apply.
    Config,
}

/// Add notifications to a group. Messages are applied in list order, so a
/// later item wins over an earlier one sharing its id and ends up more
/// recently used.
pub struct AddMsg {
    /// The group id.
    pub group: String,
    /// The messages to add.
    pub items: Vec<Message>,
}

/// Remove notifications from a group.
pub struct RemoveMsg {
    /// The group id.
    pub group: String,
    /// The ids of the messages to remove.
    pub items: Vec<String>,
}

/// Create or replace a group.
pub struct PutGroupMsg {
    /// The metadata of the group.
    pub group: model::MessageGroup,
}

/// Set the counter field on a specific group.
pub struct SetGroupCounterMsg {
    /// The group id.
    pub group: String,
    /// The counter value.
    pub counter: u64,
}

} // verus!

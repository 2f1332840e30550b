//! Plain data carried between sources, the registry and the views: message
//! records, group metadata, and the handshake / notification wire shapes.

use vstd::prelude::*;

verus! {

/// Mathematical model of a [`MessageGroup`]: every field as a pure value.
#[verifier::ext_equal]
pub struct MessageGroupView {
    pub id: Seq<char>,
    pub importance: int,
    pub title: Seq<char>,
    pub capacity: int,
    pub pinned_capacity: int,
}

/// Metadata of a message group.
pub struct MessageGroup {
    /// A unique identifier for this group.
    pub id: String,
    /// Groups with higher importance are shown first.
    pub importance: i32,
    /// The title of this group.
    pub title: String,
    /// How many regular messages this group may display.
    pub capacity: u32,
    /// How many pinned messages this group may display.
    pub pinned_capacity: u32,
}

impl View for MessageGroup {
    type V = MessageGroupView;

    open spec fn view(&self) -> MessageGroupView {
        MessageGroupView {
            id: self.id@,
            importance: self.importance as int,
            title: self.title@,
            capacity: self.capacity as int,
            pinned_capacity: self.pinned_capacity as int,
        }
    }
}

impl Clone for MessageGroup {
    fn clone(&self) -> (r: Self)
        ensures
            r@ == self@,
    {
        MessageGroup {
            id: self.id.clone(),
            importance: self.importance,
            title: self.title.clone(),
            capacity: self.capacity,
            pinned_capacity: self.pinned_capacity,
        }
    }
}

impl Default for MessageGroup {
    /// The defaults used when a source omits a field: importance 0,
    /// capacity 10, pinned capacity 5.
    fn default() -> (r: Self)
        ensures
            r@.id == Seq::<char>::empty(),
            r@.importance == 0,
            r@.title == Seq::<char>::empty(),
            r@.capacity == 10,
            r@.pinned_capacity == 5,
    {
        MessageGroup {
            id: String::new(),
            importance: 0,
            title: String::new(),
            capacity: 10,
            pinned_capacity: 5,
        }
    }
}

/// Mathematical model of a [`Message`]: every field as a pure value.
#[verifier::ext_equal]
pub struct MessageView {
    pub id: Seq<char>,
    pub counter: Option<u64>,
    pub tags: Seq<Seq<char>>,
    pub body: Seq<char>,
    pub time: Option<i64>,
}

/// A single notification-style message. Messages with the same `id` inside
/// the same group replace each other upon receipt.
pub struct Message {
    /// The identifier of this message, unique within its group.
    pub id: String,
    /// How many real notifications this message currently covers.
    pub counter: Option<u64>,
    /// Tag sections displayed before the body.
    pub tags: Vec<String>,
    /// The body section of this message.
    pub body: String,
    /// The send time of this message, as seconds since the Unix epoch.
    pub time: Option<i64>,
}

impl View for Message {
    type V = MessageView;

    open spec fn view(&self) -> MessageView {
        MessageView {
            id: self.id@,
            counter: self.counter,
            tags: self.tags.deep_view(),
            body: self.body@,
            time: self.time,
        }
    }
}

impl Clone for Message {
    fn clone(&self) -> (r: Self)
        ensures
            r@ == self@,
    {
        let tags = self.tags.clone();
        proof {
            assert forall|i: int| 0 <= i < tags.deep_view().len() implies tags.deep_view()[i]
                == self.tags.deep_view()[i] by {
                assert(cloned::<String>(self.tags@[i], tags@[i]));
            }
            assert(tags.deep_view() =~= self.tags.deep_view());
        }
        let r = Message {
            id: self.id.clone(),
            counter: self.counter,
            tags,
            body: self.body.clone(),
            time: self.time,
        };
        proof {
            assert(r@ =~= self@);
        }
        r
    }
}

impl Default for Message {
    fn default() -> (r: Self)
        ensures
            r@.id == Seq::<char>::empty(),
            r@.counter is None,
            r@.tags == Seq::<Seq<char>>::empty(),
            r@.body == Seq::<char>::empty(),
            r@.time is None,
    {
        let r = Message {
            id: String::new(),
            counter: None,
            tags: Vec::new(),
            body: String::new(),
            time: None,
        };
        proof {
            assert(r@.tags =~= Seq::<Seq<char>>::empty());
        }
        r
    }
}

/// First message a server sends on a fresh connection.
pub struct HandshakeServerMessage {
    pub server_name: String,
    pub server_version: String,
}

/// First message a client sends on a fresh connection.
pub struct HandshakeClientMessage {
    pub client_name: String,
    pub client_version: String,
}

/// Messages a client may send after the handshake.
pub enum ClientMessage {
    /// Create or replace a notify group.
    PutGroup(NotifyGroup),
    /// Create or replace a notify within a group.
    PutNotify(Notify),
    /// Remove a notify group.
    RemoveGroup { group: String },
    /// Remove a notify.
    RemoveNotify { group: String, key: String },
}

/// Messages a server may send after the handshake.
pub enum ServerMessage {
    Reaction { group: String, key: String },
}

/// A named group of notifies.
pub struct NotifyGroup {
}

/// A single notify delivered by a client.
pub struct Notify {
    /// The unique key to this notify within its group.
    pub key: String,
    /// The group name this notify is in.
    pub group: String,
    /// Prefixes to display before the body; may be truncated or omitted.
    pub prefixes: Vec<String>,
    /// Body of this notify.
    pub body: String,
    /// Whether a reaction on this notify is reported back to its source.
    pub reaction: bool,
    /// If set, this notify disappears after this many milliseconds.
    pub expiration: Option<u64>,
}

/// Create or replace a namespace.
pub struct AddNamespaceMsg {
    /// The namespace's name.
    pub ns: Vec<String>,
    /// The counter the namespace starts with.
    pub init_cnt: usize,
}

} // verus!

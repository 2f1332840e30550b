//! Network interface shapes the transport collaborator works with. The
//! connections themselves are made outside the library; the core only
//! consumes already-decoded commands.

use vstd::prelude::*;

verus! {

/// An endpoint a transport can connect to or listen on.
pub enum Endpoint {
    /// A websocket address.
    Websocket(String),
}

/// Marker for endpoint implementations the transport accepts.
pub trait NadirEndpoint {

}

} // verus!
